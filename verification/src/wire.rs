//! Field-exact wire codec for the proposal data model.
//!
//! Messages are encoded as the concatenation of their fields in declaration
//! order: integers in little-endian form (`u64` in eight bytes, `u32` in
//! four), byte strings with a `u64` length prefix, lists with a `u64` count
//! prefix, and the outlay-to-output mapping as a list of key/value pairs.
//! Every decoder mirrors its encoder exactly, and the round-trip lemmas
//! prove that decoding an encoding yields the original value.

use vstd::prelude::*;

use vstd::bytes::{lemma_auto_spec_u32_to_from_le_bytes, lemma_auto_spec_u64_to_from_le_bytes,
    spec_u32_from_le_bytes, spec_u32_to_le_bytes, spec_u64_from_le_bytes, spec_u64_to_le_bytes,
    u32_from_le_bytes, u32_to_le_bytes, u64_from_le_bytes, u64_to_le_bytes};
use vstd::slice::{slice_subrange, slice_to_vec};

use crate::errors::ConversionError;
use crate::types::{Outlay, OutlayModel, Tx, TxModel, TxOut, TxOutModel, TxProposal,
    TxProposalModel, UnspentTxOut, UnspentTxOutModel};

verus! {

// ---------------------------------------------------------------------------
// Primitive fields: u64, u32, length-prefixed byte strings
// ---------------------------------------------------------------------------

pub open spec fn enc_u64(x: u64) -> Seq<u8> {
    spec_u64_to_le_bytes(x)
}

pub open spec fn dec_u64(s: Seq<u8>, i: int) -> Option<(u64, int)> {
    if 0 <= i && i + 8 <= s.len() {
        Some((spec_u64_from_le_bytes(s.subrange(i, i + 8)), i + 8))
    } else {
        None
    }
}

pub open spec fn enc_u32(x: u32) -> Seq<u8> {
    spec_u32_to_le_bytes(x)
}

pub open spec fn dec_u32(s: Seq<u8>, i: int) -> Option<(u32, int)> {
    if 0 <= i && i + 4 <= s.len() {
        Some((spec_u32_from_le_bytes(s.subrange(i, i + 4)), i + 4))
    } else {
        None
    }
}

/// A byte string is encoded as its length in a `u64` prefix, then its bytes.
pub open spec fn enc_bytes(b: Seq<u8>) -> Seq<u8> {
    enc_u64(b.len() as u64) + b
}

pub open spec fn dec_bytes(s: Seq<u8>, i: int) -> Option<(Seq<u8>, int)> {
    match dec_u64(s, i) {
        Some((n, j)) => if j + n <= s.len() {
            Some((s.subrange(j, j + n), j + n))
        } else {
            None
        },
        None => None,
    }
}

/// A byte string can only round-trip when its length fits the prefix.
pub open spec fn wf_bytes(b: Seq<u8>) -> bool {
    b.len() <= u64::MAX
}

/// If `pre + mid + post` sits at position `i` of `s`, then `mid` sits at
/// position `i + pre.len()`.
proof fn lemma_chunk(s: Seq<u8>, i: int, pre: Seq<u8>, mid: Seq<u8>, post: Seq<u8>)
    requires
        0 <= i,
        i + pre.len() + mid.len() + post.len() <= s.len(),
        s.subrange(i, i + pre.len() + mid.len() + post.len()) == pre + mid + post,
    ensures
        s.subrange(i + pre.len(), i + pre.len() + mid.len()) == mid,
{
    let whole = pre + mid + post;
    assert forall|k: int|
        0 <= k < mid.len() implies s.subrange(i + pre.len(), i + pre.len() + mid.len())[k]
        == mid[k] by {
        assert(whole[pre.len() + k] == s.subrange(i, i + whole.len() as int)[pre.len() + k]);
    }
    assert(s.subrange(i + pre.len(), i + pre.len() + mid.len()) =~= mid);
}

pub proof fn lemma_dec_enc_u64(s: Seq<u8>, i: int, x: u64)
    requires
        0 <= i,
        i + enc_u64(x).len() <= s.len(),
        s.subrange(i, i + enc_u64(x).len() as int) == enc_u64(x),
    ensures
        enc_u64(x).len() == 8,
        dec_u64(s, i) == Some((x, i + 8)),
{
    lemma_auto_spec_u64_to_from_le_bytes();
}

pub proof fn lemma_dec_enc_u32(s: Seq<u8>, i: int, x: u32)
    requires
        0 <= i,
        i + enc_u32(x).len() <= s.len(),
        s.subrange(i, i + enc_u32(x).len() as int) == enc_u32(x),
    ensures
        enc_u32(x).len() == 4,
        dec_u32(s, i) == Some((x, i + 4)),
{
    lemma_auto_spec_u32_to_from_le_bytes();
}

pub proof fn lemma_dec_enc_bytes(s: Seq<u8>, i: int, b: Seq<u8>)
    requires
        wf_bytes(b),
        0 <= i,
        i + enc_bytes(b).len() <= s.len(),
        s.subrange(i, i + enc_bytes(b).len() as int) == enc_bytes(b),
    ensures
        enc_bytes(b).len() == 8 + b.len(),
        dec_bytes(s, i) == Some((b, i + enc_bytes(b).len() as int)),
{
    lemma_auto_spec_u64_to_from_le_bytes();
    let n = b.len() as u64;
    let e = enc_u64(n);
    lemma_chunk(s, i, Seq::empty(), e, b);
    assert(s.subrange(i, i + 8) =~= s.subrange(i + 0, i + 0 + e.len() as int));
    lemma_dec_enc_u64(s, i, n);
    lemma_chunk(s, i, e, b, Seq::empty());
    assert(s.subrange(i + 8, i + 8 + b.len() as int) == b);
}

// ---------------------------------------------------------------------------
// Executable primitive readers and writers
// ---------------------------------------------------------------------------

pub fn read_u64(bytes: &Vec<u8>, pos: usize) -> (r: Result<(u64, usize), ConversionError>)
    ensures
        match dec_u64(bytes@, pos as int) {
            Some(vj) => r matches Ok(p) && p.0 == vj.0 && p.1 as int == vj.1,
            None => r matches Err(e) && e == ConversionError::InvalidEncoding,
        },
{
    if bytes.len() >= 8 && pos <= bytes.len() - 8 {
        let sub = slice_subrange(bytes.as_slice(), pos, pos + 8);
        Ok((u64_from_le_bytes(sub), pos + 8))
    } else {
        Err(ConversionError::InvalidEncoding)
    }
}

pub fn read_u32(bytes: &Vec<u8>, pos: usize) -> (r: Result<(u32, usize), ConversionError>)
    ensures
        match dec_u32(bytes@, pos as int) {
            Some(vj) => r matches Ok(p) && p.0 == vj.0 && p.1 as int == vj.1,
            None => r matches Err(e) && e == ConversionError::InvalidEncoding,
        },
{
    if bytes.len() >= 4 && pos <= bytes.len() - 4 {
        let sub = slice_subrange(bytes.as_slice(), pos, pos + 4);
        Ok((u32_from_le_bytes(sub), pos + 4))
    } else {
        Err(ConversionError::InvalidEncoding)
    }
}

pub fn read_bytes(bytes: &Vec<u8>, pos: usize) -> (r: Result<(Vec<u8>, usize), ConversionError>)
    ensures
        match dec_bytes(bytes@, pos as int) {
            Some(bj) => r matches Ok(p) && p.0@ == bj.0 && p.1 as int == bj.1,
            None => r matches Err(e) && e == ConversionError::InvalidEncoding,
        },
{
    let (n, j) = match read_u64(bytes, pos) {
        Ok(p) => p,
        Err(e) => {
            return Err(e);
        },
    };
    if n <= (bytes.len() - j) as u64 {
        let n_usize = n as usize;
        let sub = slice_subrange(bytes.as_slice(), j, j + n_usize);
        Ok((slice_to_vec(sub), j + n_usize))
    } else {
        Err(ConversionError::InvalidEncoding)
    }
}

pub fn write_u64(out: &mut Vec<u8>, x: u64)
    ensures
        final(out)@ == old(out)@ + enc_u64(x),
{
    let mut b = u64_to_le_bytes(x);
    out.append(&mut b);
}

pub fn write_u32(out: &mut Vec<u8>, x: u32)
    ensures
        final(out)@ == old(out)@ + enc_u32(x),
{
    let mut b = u32_to_le_bytes(x);
    out.append(&mut b);
}

pub fn write_bytes(out: &mut Vec<u8>, b: &Vec<u8>)
    ensures
        final(out)@ == old(out)@ + enc_bytes(b@),
{
    write_u64(out, b.len() as u64);
    let mut copy = slice_to_vec(b.as_slice());
    out.append(&mut copy);
    assert(out@ =~= old(out)@ + enc_bytes(b@));
}

// ---------------------------------------------------------------------------
// Transaction outputs
// ---------------------------------------------------------------------------

pub open spec fn wf_txout(t: TxOutModel) -> bool {
    &&& wf_bytes(t.amount_commitment)
    &&& wf_bytes(t.target_key)
    &&& wf_bytes(t.public_key)
    &&& wf_bytes(t.e_account_hint)
}

pub open spec fn enc_txout(t: TxOutModel) -> Seq<u8> {
    enc_bytes(t.amount_commitment) + enc_bytes(t.target_key) + enc_bytes(t.public_key)
        + enc_bytes(t.e_account_hint)
}

pub open spec fn dec_txout(s: Seq<u8>, i: int) -> Option<(TxOutModel, int)> {
    match dec_bytes(s, i) {
        Some((commitment, i1)) => match dec_bytes(s, i1) {
            Some((target, i2)) => match dec_bytes(s, i2) {
                Some((public, i3)) => match dec_bytes(s, i3) {
                    Some((hint, i4)) => Some(
                        (
                            TxOutModel {
                                amount_commitment: commitment,
                                target_key: target,
                                public_key: public,
                                e_account_hint: hint,
                            },
                            i4,
                        ),
                    ),
                    None => None,
                },
                None => None,
            },
            None => None,
        },
        None => None,
    }
}

pub proof fn lemma_dec_enc_txout(s: Seq<u8>, i: int, t: TxOutModel)
    requires
        wf_txout(t),
        0 <= i,
        i + enc_txout(t).len() <= s.len(),
        s.subrange(i, i + enc_txout(t).len() as int) == enc_txout(t),
    ensures
        dec_txout(s, i) == Some((t, i + enc_txout(t).len() as int)),
{
    let e1 = enc_bytes(t.amount_commitment);
    let e2 = enc_bytes(t.target_key);
    let e3 = enc_bytes(t.public_key);
    let e4 = enc_bytes(t.e_account_hint);
    let e = enc_txout(t);
    assert(Seq::empty() + e1 + (e2 + e3 + e4) =~= e);
    lemma_chunk(s, i, Seq::empty(), e1, e2 + e3 + e4);
    assert(s.subrange(i, i + e1.len() as int) == e1);
    lemma_dec_enc_bytes(s, i, t.amount_commitment);
    let i1 = i + e1.len() as int;
    assert(e1 + e2 + (e3 + e4) =~= e);
    lemma_chunk(s, i, e1, e2, e3 + e4);
    lemma_dec_enc_bytes(s, i1, t.target_key);
    let i2 = i1 + e2.len() as int;
    assert(e1 + e2 + e3 + e4 =~= e);
    lemma_chunk(s, i, e1 + e2, e3, e4);
    lemma_dec_enc_bytes(s, i2, t.public_key);
    let i3 = i2 + e3.len() as int;
    assert(e1 + e2 + e3 + e4 + Seq::<u8>::empty() =~= e);
    lemma_chunk(s, i, e1 + e2 + e3, e4, Seq::empty());
    lemma_dec_enc_bytes(s, i3, t.e_account_hint);
}

pub fn encode_tx_out_into(out: &mut Vec<u8>, t: &TxOut)
    ensures
        final(out)@ == old(out)@ + enc_txout(t@),
{
    write_bytes(out, &t.amount_commitment);
    write_bytes(out, &t.target_key);
    write_bytes(out, &t.public_key);
    write_bytes(out, &t.e_account_hint);
    assert(out@ =~= old(out)@ + enc_txout(t@));
}

pub fn decode_tx_out_at(bytes: &Vec<u8>, pos: usize) -> (r: Result<
    (TxOut, usize),
    ConversionError,
>)
    ensures
        match dec_txout(bytes@, pos as int) {
            Some(tj) => r matches Ok(p) && p.0@ == tj.0 && p.1 as int == tj.1,
            None => r matches Err(e) && e == ConversionError::InvalidEncoding,
        },
{
    let (amount_commitment, i1) = match read_bytes(bytes, pos) {
        Ok(p) => p,
        Err(e) => {
            return Err(e);
        },
    };
    let (target_key, i2) = match read_bytes(bytes, i1) {
        Ok(p) => p,
        Err(e) => {
            return Err(e);
        },
    };
    let (public_key, i3) = match read_bytes(bytes, i2) {
        Ok(p) => p,
        Err(e) => {
            return Err(e);
        },
    };
    let (e_account_hint, i4) = match read_bytes(bytes, i3) {
        Ok(p) => p,
        Err(e) => {
            return Err(e);
        },
    };
    Ok((TxOut { amount_commitment, target_key, public_key, e_account_hint }, i4))
}

// ---------------------------------------------------------------------------
// Unspent outputs
// ---------------------------------------------------------------------------

pub open spec fn wf_utxo(u: UnspentTxOutModel) -> bool {
    &&& wf_txout(u.tx_out)
    &&& wf_bytes(u.key_image)
}

pub open spec fn enc_utxo(u: UnspentTxOutModel) -> Seq<u8> {
    enc_txout(u.tx_out) + enc_u32(u.subaddress_index) + enc_bytes(u.key_image) + enc_u64(u.value)
        + enc_u64(u.attempted_spend_height) + enc_u64(u.attempted_spend_tombstone)
}

pub open spec fn dec_utxo(s: Seq<u8>, i: int) -> Option<(UnspentTxOutModel, int)> {
    match dec_txout(s, i) {
        Some((tx_out, i1)) => match dec_u32(s, i1) {
            Some((subaddress, i2)) => match dec_bytes(s, i2) {
                Some((key_image, i3)) => match dec_u64(s, i3) {
                    Some((value, i4)) => match dec_u64(s, i4) {
                        Some((height, i5)) => match dec_u64(s, i5) {
                            Some((tombstone, i6)) => Some(
                                (
                                    UnspentTxOutModel {
                                        tx_out,
                                        subaddress_index: subaddress,
                                        key_image,
                                        value,
                                        attempted_spend_height: height,
                                        attempted_spend_tombstone: tombstone,
                                    },
                                    i6,
                                ),
                            ),
                            None => None,
                        },
                        None => None,
                    },
                    None => None,
                },
                None => None,
            },
            None => None,
        },
        None => None,
    }
}

pub proof fn lemma_dec_enc_utxo(s: Seq<u8>, i: int, u: UnspentTxOutModel)
    requires
        wf_utxo(u),
        0 <= i,
        i + enc_utxo(u).len() <= s.len(),
        s.subrange(i, i + enc_utxo(u).len() as int) == enc_utxo(u),
    ensures
        dec_utxo(s, i) == Some((u, i + enc_utxo(u).len() as int)),
{
    let e1 = enc_txout(u.tx_out);
    let e2 = enc_u32(u.subaddress_index);
    let e3 = enc_bytes(u.key_image);
    let e4 = enc_u64(u.value);
    let e5 = enc_u64(u.attempted_spend_height);
    let e6 = enc_u64(u.attempted_spend_tombstone);
    let e = enc_utxo(u);
    assert(Seq::empty() + e1 + (e2 + e3 + e4 + e5 + e6) =~= e);
    lemma_chunk(s, i, Seq::empty(), e1, e2 + e3 + e4 + e5 + e6);
    assert(s.subrange(i, i + e1.len() as int) == e1);
    lemma_dec_enc_txout(s, i, u.tx_out);
    let i1 = i + e1.len() as int;
    assert(e1 + e2 + (e3 + e4 + e5 + e6) =~= e);
    lemma_chunk(s, i, e1, e2, e3 + e4 + e5 + e6);
    lemma_dec_enc_u32(s, i1, u.subaddress_index);
    let i2 = i1 + e2.len() as int;
    assert(e1 + e2 + e3 + (e4 + e5 + e6) =~= e);
    lemma_chunk(s, i, e1 + e2, e3, e4 + e5 + e6);
    lemma_dec_enc_bytes(s, i2, u.key_image);
    let i3 = i2 + e3.len() as int;
    assert(e1 + e2 + e3 + e4 + (e5 + e6) =~= e);
    lemma_chunk(s, i, e1 + e2 + e3, e4, e5 + e6);
    lemma_dec_enc_u64(s, i3, u.value);
    let i4 = i3 + e4.len() as int;
    assert(e1 + e2 + e3 + e4 + e5 + e6 =~= e);
    lemma_chunk(s, i, e1 + e2 + e3 + e4, e5, e6);
    lemma_dec_enc_u64(s, i4, u.attempted_spend_height);
    let i5 = i4 + e5.len() as int;
    assert(e1 + e2 + e3 + e4 + e5 + e6 + Seq::<u8>::empty() =~= e);
    lemma_chunk(s, i, e1 + e2 + e3 + e4 + e5, e6, Seq::empty());
    lemma_dec_enc_u64(s, i5, u.attempted_spend_tombstone);
}

pub fn encode_unspent_tx_out_into(out: &mut Vec<u8>, u: &UnspentTxOut)
    ensures
        final(out)@ == old(out)@ + enc_utxo(u@),
{
    encode_tx_out_into(out, &u.tx_out);
    write_u32(out, u.subaddress_index);
    write_bytes(out, &u.key_image);
    write_u64(out, u.value);
    write_u64(out, u.attempted_spend_height);
    write_u64(out, u.attempted_spend_tombstone);
    assert(out@ =~= old(out)@ + enc_utxo(u@));
}

pub fn decode_unspent_tx_out_at(bytes: &Vec<u8>, pos: usize) -> (r: Result<
    (UnspentTxOut, usize),
    ConversionError,
>)
    ensures
        match dec_utxo(bytes@, pos as int) {
            Some(uj) => r matches Ok(p) && p.0@ == uj.0 && p.1 as int == uj.1,
            None => r matches Err(e) && e == ConversionError::InvalidEncoding,
        },
{
    let (tx_out, i1) = match decode_tx_out_at(bytes, pos) {
        Ok(p) => p,
        Err(e) => {
            return Err(e);
        },
    };
    let (subaddress_index, i2) = match read_u32(bytes, i1) {
        Ok(p) => p,
        Err(e) => {
            return Err(e);
        },
    };
    let (key_image, i3) = match read_bytes(bytes, i2) {
        Ok(p) => p,
        Err(e) => {
            return Err(e);
        },
    };
    let (value, i4) = match read_u64(bytes, i3) {
        Ok(p) => p,
        Err(e) => {
            return Err(e);
        },
    };
    let (attempted_spend_height, i5) = match read_u64(bytes, i4) {
        Ok(p) => p,
        Err(e) => {
            return Err(e);
        },
    };
    let (attempted_spend_tombstone, i6) = match read_u64(bytes, i5) {
        Ok(p) => p,
        Err(e) => {
            return Err(e);
        },
    };
    Ok(
        (
            UnspentTxOut {
                tx_out,
                subaddress_index,
                key_image,
                value,
                attempted_spend_height,
                attempted_spend_tombstone,
            },
            i6,
        ),
    )
}

// ---------------------------------------------------------------------------
// Outlays
// ---------------------------------------------------------------------------

pub open spec fn wf_outlay(o: OutlayModel) -> bool {
    wf_bytes(o.receiver)
}

pub open spec fn enc_outlay(o: OutlayModel) -> Seq<u8> {
    enc_u64(o.value) + enc_bytes(o.receiver)
}

pub open spec fn dec_outlay(s: Seq<u8>, i: int) -> Option<(OutlayModel, int)> {
    match dec_u64(s, i) {
        Some((value, i1)) => match dec_bytes(s, i1) {
            Some((receiver, i2)) => Some((OutlayModel { value, receiver }, i2)),
            None => None,
        },
        None => None,
    }
}

pub proof fn lemma_dec_enc_outlay(s: Seq<u8>, i: int, o: OutlayModel)
    requires
        wf_outlay(o),
        0 <= i,
        i + enc_outlay(o).len() <= s.len(),
        s.subrange(i, i + enc_outlay(o).len() as int) == enc_outlay(o),
    ensures
        dec_outlay(s, i) == Some((o, i + enc_outlay(o).len() as int)),
{
    let e1 = enc_u64(o.value);
    let e2 = enc_bytes(o.receiver);
    let e = enc_outlay(o);
    assert(Seq::empty() + e1 + e2 =~= e);
    lemma_chunk(s, i, Seq::empty(), e1, e2);
    assert(s.subrange(i, i + e1.len() as int) == e1);
    lemma_dec_enc_u64(s, i, o.value);
    let i1 = i + e1.len() as int;
    assert(e1 + e2 + Seq::<u8>::empty() =~= e);
    lemma_chunk(s, i, e1, e2, Seq::empty());
    lemma_dec_enc_bytes(s, i1, o.receiver);
}

pub fn encode_outlay_into(out: &mut Vec<u8>, o: &Outlay)
    ensures
        final(out)@ == old(out)@ + enc_outlay(o@),
{
    write_u64(out, o.value);
    write_bytes(out, &o.receiver);
    assert(out@ =~= old(out)@ + enc_outlay(o@));
}

pub fn decode_outlay_at(bytes: &Vec<u8>, pos: usize) -> (r: Result<
    (Outlay, usize),
    ConversionError,
>)
    ensures
        match dec_outlay(bytes@, pos as int) {
            Some(oj) => r matches Ok(p) && p.0@ == oj.0 && p.1 as int == oj.1,
            None => r matches Err(e) && e == ConversionError::InvalidEncoding,
        },
{
    let (value, i1) = match read_u64(bytes, pos) {
        Ok(p) => p,
        Err(e) => {
            return Err(e);
        },
    };
    let (receiver, i2) = match read_bytes(bytes, i1) {
        Ok(p) => p,
        Err(e) => {
            return Err(e);
        },
    };
    Ok((Outlay { value, receiver }, i2))
}

// ---------------------------------------------------------------------------
// Lists: a u64 count prefix, then the encoded elements in order
// ---------------------------------------------------------------------------

pub open spec fn enc_txout_seq(xs: Seq<TxOutModel>) -> Seq<u8>
    decreases xs.len(),
{
    if xs.len() == 0 {
        Seq::empty()
    } else {
        enc_txout(xs[0]) + enc_txout_seq(xs.drop_first())
    }
}

pub open spec fn dec_txout_seq(s: Seq<u8>, i: int, count: nat) -> Option<(Seq<TxOutModel>, int)>
    decreases count,
{
    if count == 0 {
        Some((Seq::empty(), i))
    } else {
        match dec_txout(s, i) {
            Some((x, j)) => match dec_txout_seq(s, j, (count - 1) as nat) {
                Some((rest, k)) => Some((seq![x] + rest, k)),
                None => None,
            },
            None => None,
        }
    }
}

pub open spec fn wf_txout_seq(xs: Seq<TxOutModel>) -> bool {
    &&& xs.len() <= u64::MAX
    &&& forall|k: int| 0 <= k < xs.len() ==> wf_txout(#[trigger] xs[k])
}

pub proof fn lemma_dec_enc_txout_seq(s: Seq<u8>, i: int, xs: Seq<TxOutModel>)
    requires
        forall|k: int| 0 <= k < xs.len() ==> wf_txout(#[trigger] xs[k]),
        0 <= i,
        i + enc_txout_seq(xs).len() <= s.len(),
        s.subrange(i, i + enc_txout_seq(xs).len() as int) == enc_txout_seq(xs),
    ensures
        dec_txout_seq(s, i, xs.len()) == Some((xs, i + enc_txout_seq(xs).len() as int)),
    decreases xs.len(),
{
    if xs.len() == 0 {
        assert(xs =~= Seq::<TxOutModel>::empty());
    } else {
        let e1 = enc_txout(xs[0]);
        let rest = enc_txout_seq(xs.drop_first());
        let e = enc_txout_seq(xs);
        assert(Seq::empty() + e1 + rest =~= e);
        lemma_chunk(s, i, Seq::empty(), e1, rest);
        assert(s.subrange(i, i + e1.len() as int) == e1);
        lemma_dec_enc_txout(s, i, xs[0]);
        let i1 = i + e1.len() as int;
        assert(e1 + rest + Seq::<u8>::empty() =~= e);
        lemma_chunk(s, i, e1, rest, Seq::empty());
        assert forall|k: int| 0 <= k < xs.drop_first().len() implies wf_txout(
            #[trigger] xs.drop_first()[k],
        ) by {
            assert(xs.drop_first()[k] == xs[k + 1]);
        }
        lemma_dec_enc_txout_seq(s, i1, xs.drop_first());
        assert(seq![xs[0]] + xs.drop_first() =~= xs);
    }
}

fn encode_txout_seq_from(out: &mut Vec<u8>, xs: &Vec<TxOut>, i: usize)
    requires
        i <= xs@.len(),
    ensures
        final(out)@ == old(out)@ + enc_txout_seq(
            xs@.map_values(|x: TxOut| x@).skip(i as int),
        ),
    decreases xs@.len() - i,
{
    let ghost m = xs@.map_values(|x: TxOut| x@);
    if i < xs.len() {
        encode_tx_out_into(out, &xs[i]);
        encode_txout_seq_from(out, xs, i + 1);
        proof {
            assert(m.skip(i as int)[0] == m[i as int]);
            assert(m.skip(i as int).drop_first() =~= m.skip(i as int + 1));
            assert(out@ =~= old(out)@ + enc_txout_seq(m.skip(i as int)));
        }
    } else {
        proof {
            assert(m.skip(i as int) =~= Seq::<TxOutModel>::empty());
            assert(out@ =~= old(out)@ + enc_txout_seq(m.skip(i as int)));
        }
    }
}

fn decode_txout_seq_at(bytes: &Vec<u8>, pos: usize, count: u64) -> (r: Result<
    (Vec<TxOut>, usize),
    ConversionError,
>)
    ensures
        match dec_txout_seq(bytes@, pos as int, count as nat) {
            Some(lj) => r matches Ok(p) && p.0@.map_values(|x: TxOut| x@) == lj.0 && p.1 as int
                == lj.1,
            None => r matches Err(e) && e == ConversionError::InvalidEncoding,
        },
    decreases count,
{
    if count == 0 {
        let empty: Vec<TxOut> = Vec::new();
        assert(empty@.map_values(|x: TxOut| x@) =~= Seq::<TxOutModel>::empty());
        Ok((empty, pos))
    } else {
        let (x, j) = match decode_tx_out_at(bytes, pos) {
            Ok(p) => p,
            Err(e) => {
                return Err(e);
            },
        };
        let (mut rest, k) = match decode_txout_seq_at(bytes, j, count - 1) {
            Ok(p) => p,
            Err(e) => {
                return Err(e);
            },
        };
        rest.insert(0, x);
        proof {
            let lj = dec_txout_seq(bytes@, pos as int, count as nat);
            assert(rest@.map_values(|x2: TxOut| x2@) =~= lj->Some_0.0);
        }
        Ok((rest, k))
    }
}

pub open spec fn enc_txout_list(xs: Seq<TxOutModel>) -> Seq<u8> {
    enc_u64(xs.len() as u64) + enc_txout_seq(xs)
}

pub open spec fn dec_txout_list(s: Seq<u8>, i: int) -> Option<(Seq<TxOutModel>, int)> {
    match dec_u64(s, i) {
        Some((n, j)) => dec_txout_seq(s, j, n as nat),
        None => None,
    }
}

pub proof fn lemma_dec_enc_txout_list(s: Seq<u8>, i: int, xs: Seq<TxOutModel>)
    requires
        wf_txout_seq(xs),
        0 <= i,
        i + enc_txout_list(xs).len() <= s.len(),
        s.subrange(i, i + enc_txout_list(xs).len() as int) == enc_txout_list(xs),
    ensures
        dec_txout_list(s, i) == Some((xs, i + enc_txout_list(xs).len() as int)),
{
    let e1 = enc_u64(xs.len() as u64);
    let rest = enc_txout_seq(xs);
    let e = enc_txout_list(xs);
    assert(Seq::empty() + e1 + rest =~= e);
    lemma_chunk(s, i, Seq::empty(), e1, rest);
    assert(s.subrange(i, i + e1.len() as int) == e1);
    lemma_dec_enc_u64(s, i, xs.len() as u64);
    let i1 = i + e1.len() as int;
    assert(e1 + rest + Seq::<u8>::empty() =~= e);
    lemma_chunk(s, i, e1, rest, Seq::empty());
    lemma_dec_enc_txout_seq(s, i1, xs);
}

fn encode_txout_list_into(out: &mut Vec<u8>, xs: &Vec<TxOut>)
    ensures
        final(out)@ == old(out)@ + enc_txout_list(xs@.map_values(|x: TxOut| x@)),
{
    write_u64(out, xs.len() as u64);
    encode_txout_seq_from(out, xs, 0);
    proof {
        let m = xs@.map_values(|x: TxOut| x@);
        assert(m.skip(0) =~= m);
        assert(out@ =~= old(out)@ + enc_txout_list(m));
    }
}

fn decode_txout_list_at(bytes: &Vec<u8>, pos: usize) -> (r: Result<
    (Vec<TxOut>, usize),
    ConversionError,
>)
    ensures
        match dec_txout_list(bytes@, pos as int) {
            Some(lj) => r matches Ok(p) && p.0@.map_values(|x: TxOut| x@) == lj.0 && p.1 as int
                == lj.1,
            None => r matches Err(e) && e == ConversionError::InvalidEncoding,
        },
{
    let (n, j) = match read_u64(bytes, pos) {
        Ok(p) => p,
        Err(e) => {
            return Err(e);
        },
    };
    decode_txout_seq_at(bytes, j, n)
}

pub open spec fn enc_utxo_seq(xs: Seq<UnspentTxOutModel>) -> Seq<u8>
    decreases xs.len(),
{
    if xs.len() == 0 {
        Seq::empty()
    } else {
        enc_utxo(xs[0]) + enc_utxo_seq(xs.drop_first())
    }
}

pub open spec fn dec_utxo_seq(s: Seq<u8>, i: int, count: nat) -> Option<
    (Seq<UnspentTxOutModel>, int),
>
    decreases count,
{
    if count == 0 {
        Some((Seq::empty(), i))
    } else {
        match dec_utxo(s, i) {
            Some((x, j)) => match dec_utxo_seq(s, j, (count - 1) as nat) {
                Some((rest, k)) => Some((seq![x] + rest, k)),
                None => None,
            },
            None => None,
        }
    }
}

pub open spec fn wf_utxo_seq(xs: Seq<UnspentTxOutModel>) -> bool {
    &&& xs.len() <= u64::MAX
    &&& forall|k: int| 0 <= k < xs.len() ==> wf_utxo(#[trigger] xs[k])
}

pub proof fn lemma_dec_enc_utxo_seq(s: Seq<u8>, i: int, xs: Seq<UnspentTxOutModel>)
    requires
        forall|k: int| 0 <= k < xs.len() ==> wf_utxo(#[trigger] xs[k]),
        0 <= i,
        i + enc_utxo_seq(xs).len() <= s.len(),
        s.subrange(i, i + enc_utxo_seq(xs).len() as int) == enc_utxo_seq(xs),
    ensures
        dec_utxo_seq(s, i, xs.len()) == Some((xs, i + enc_utxo_seq(xs).len() as int)),
    decreases xs.len(),
{
    if xs.len() == 0 {
        assert(xs =~= Seq::<UnspentTxOutModel>::empty());
    } else {
        let e1 = enc_utxo(xs[0]);
        let rest = enc_utxo_seq(xs.drop_first());
        let e = enc_utxo_seq(xs);
        assert(Seq::empty() + e1 + rest =~= e);
        lemma_chunk(s, i, Seq::empty(), e1, rest);
        assert(s.subrange(i, i + e1.len() as int) == e1);
        lemma_dec_enc_utxo(s, i, xs[0]);
        let i1 = i + e1.len() as int;
        assert(e1 + rest + Seq::<u8>::empty() =~= e);
        lemma_chunk(s, i, e1, rest, Seq::empty());
        assert forall|k: int| 0 <= k < xs.drop_first().len() implies wf_utxo(
            #[trigger] xs.drop_first()[k],
        ) by {
            assert(xs.drop_first()[k] == xs[k + 1]);
        }
        lemma_dec_enc_utxo_seq(s, i1, xs.drop_first());
        assert(seq![xs[0]] + xs.drop_first() =~= xs);
    }
}

fn encode_utxo_seq_from(out: &mut Vec<u8>, xs: &Vec<UnspentTxOut>, i: usize)
    requires
        i <= xs@.len(),
    ensures
        final(out)@ == old(out)@ + enc_utxo_seq(
            xs@.map_values(|x: UnspentTxOut| x@).skip(i as int),
        ),
    decreases xs@.len() - i,
{
    let ghost m = xs@.map_values(|x: UnspentTxOut| x@);
    if i < xs.len() {
        encode_unspent_tx_out_into(out, &xs[i]);
        encode_utxo_seq_from(out, xs, i + 1);
        proof {
            assert(m.skip(i as int)[0] == m[i as int]);
            assert(m.skip(i as int).drop_first() =~= m.skip(i as int + 1));
            assert(out@ =~= old(out)@ + enc_utxo_seq(m.skip(i as int)));
        }
    } else {
        proof {
            assert(m.skip(i as int) =~= Seq::<UnspentTxOutModel>::empty());
            assert(out@ =~= old(out)@ + enc_utxo_seq(m.skip(i as int)));
        }
    }
}

fn decode_utxo_seq_at(bytes: &Vec<u8>, pos: usize, count: u64) -> (r: Result<
    (Vec<UnspentTxOut>, usize),
    ConversionError,
>)
    ensures
        match dec_utxo_seq(bytes@, pos as int, count as nat) {
            Some(lj) => r matches Ok(p) && p.0@.map_values(|x: UnspentTxOut| x@) == lj.0
                && p.1 as int == lj.1,
            None => r matches Err(e) && e == ConversionError::InvalidEncoding,
        },
    decreases count,
{
    if count == 0 {
        let empty: Vec<UnspentTxOut> = Vec::new();
        assert(empty@.map_values(|x: UnspentTxOut| x@) =~= Seq::<UnspentTxOutModel>::empty());
        Ok((empty, pos))
    } else {
        let (x, j) = match decode_unspent_tx_out_at(bytes, pos) {
            Ok(p) => p,
            Err(e) => {
                return Err(e);
            },
        };
        let (mut rest, k) = match decode_utxo_seq_at(bytes, j, count - 1) {
            Ok(p) => p,
            Err(e) => {
                return Err(e);
            },
        };
        rest.insert(0, x);
        proof {
            let lj = dec_utxo_seq(bytes@, pos as int, count as nat);
            assert(rest@.map_values(|x2: UnspentTxOut| x2@) =~= lj->Some_0.0);
        }
        Ok((rest, k))
    }
}

pub open spec fn enc_utxo_list(xs: Seq<UnspentTxOutModel>) -> Seq<u8> {
    enc_u64(xs.len() as u64) + enc_utxo_seq(xs)
}

pub open spec fn dec_utxo_list(s: Seq<u8>, i: int) -> Option<(Seq<UnspentTxOutModel>, int)> {
    match dec_u64(s, i) {
        Some((n, j)) => dec_utxo_seq(s, j, n as nat),
        None => None,
    }
}

pub proof fn lemma_dec_enc_utxo_list(s: Seq<u8>, i: int, xs: Seq<UnspentTxOutModel>)
    requires
        wf_utxo_seq(xs),
        0 <= i,
        i + enc_utxo_list(xs).len() <= s.len(),
        s.subrange(i, i + enc_utxo_list(xs).len() as int) == enc_utxo_list(xs),
    ensures
        dec_utxo_list(s, i) == Some((xs, i + enc_utxo_list(xs).len() as int)),
{
    let e1 = enc_u64(xs.len() as u64);
    let rest = enc_utxo_seq(xs);
    let e = enc_utxo_list(xs);
    assert(Seq::empty() + e1 + rest =~= e);
    lemma_chunk(s, i, Seq::empty(), e1, rest);
    assert(s.subrange(i, i + e1.len() as int) == e1);
    lemma_dec_enc_u64(s, i, xs.len() as u64);
    let i1 = i + e1.len() as int;
    assert(e1 + rest + Seq::<u8>::empty() =~= e);
    lemma_chunk(s, i, e1, rest, Seq::empty());
    lemma_dec_enc_utxo_seq(s, i1, xs);
}

fn encode_utxo_list_into(out: &mut Vec<u8>, xs: &Vec<UnspentTxOut>)
    ensures
        final(out)@ == old(out)@ + enc_utxo_list(xs@.map_values(|x: UnspentTxOut| x@)),
{
    write_u64(out, xs.len() as u64);
    encode_utxo_seq_from(out, xs, 0);
    proof {
        let m = xs@.map_values(|x: UnspentTxOut| x@);
        assert(m.skip(0) =~= m);
        assert(out@ =~= old(out)@ + enc_utxo_list(m));
    }
}

fn decode_utxo_list_at(bytes: &Vec<u8>, pos: usize) -> (r: Result<
    (Vec<UnspentTxOut>, usize),
    ConversionError,
>)
    ensures
        match dec_utxo_list(bytes@, pos as int) {
            Some(lj) => r matches Ok(p) && p.0@.map_values(|x: UnspentTxOut| x@) == lj.0
                && p.1 as int == lj.1,
            None => r matches Err(e) && e == ConversionError::InvalidEncoding,
        },
{
    let (n, j) = match read_u64(bytes, pos) {
        Ok(p) => p,
        Err(e) => {
            return Err(e);
        },
    };
    decode_utxo_seq_at(bytes, j, n)
}

pub open spec fn enc_outlay_seq(xs: Seq<OutlayModel>) -> Seq<u8>
    decreases xs.len(),
{
    if xs.len() == 0 {
        Seq::empty()
    } else {
        enc_outlay(xs[0]) + enc_outlay_seq(xs.drop_first())
    }
}

pub open spec fn dec_outlay_seq(s: Seq<u8>, i: int, count: nat) -> Option<(Seq<OutlayModel>, int)>
    decreases count,
{
    if count == 0 {
        Some((Seq::empty(), i))
    } else {
        match dec_outlay(s, i) {
            Some((x, j)) => match dec_outlay_seq(s, j, (count - 1) as nat) {
                Some((rest, k)) => Some((seq![x] + rest, k)),
                None => None,
            },
            None => None,
        }
    }
}

pub open spec fn wf_outlay_seq(xs: Seq<OutlayModel>) -> bool {
    &&& xs.len() <= u64::MAX
    &&& forall|k: int| 0 <= k < xs.len() ==> wf_outlay(#[trigger] xs[k])
}

pub proof fn lemma_dec_enc_outlay_seq(s: Seq<u8>, i: int, xs: Seq<OutlayModel>)
    requires
        forall|k: int| 0 <= k < xs.len() ==> wf_outlay(#[trigger] xs[k]),
        0 <= i,
        i + enc_outlay_seq(xs).len() <= s.len(),
        s.subrange(i, i + enc_outlay_seq(xs).len() as int) == enc_outlay_seq(xs),
    ensures
        dec_outlay_seq(s, i, xs.len()) == Some((xs, i + enc_outlay_seq(xs).len() as int)),
    decreases xs.len(),
{
    if xs.len() == 0 {
        assert(xs =~= Seq::<OutlayModel>::empty());
    } else {
        let e1 = enc_outlay(xs[0]);
        let rest = enc_outlay_seq(xs.drop_first());
        let e = enc_outlay_seq(xs);
        assert(Seq::empty() + e1 + rest =~= e);
        lemma_chunk(s, i, Seq::empty(), e1, rest);
        assert(s.subrange(i, i + e1.len() as int) == e1);
        lemma_dec_enc_outlay(s, i, xs[0]);
        let i1 = i + e1.len() as int;
        assert(e1 + rest + Seq::<u8>::empty() =~= e);
        lemma_chunk(s, i, e1, rest, Seq::empty());
        assert forall|k: int| 0 <= k < xs.drop_first().len() implies wf_outlay(
            #[trigger] xs.drop_first()[k],
        ) by {
            assert(xs.drop_first()[k] == xs[k + 1]);
        }
        lemma_dec_enc_outlay_seq(s, i1, xs.drop_first());
        assert(seq![xs[0]] + xs.drop_first() =~= xs);
    }
}

fn encode_outlay_seq_from(out: &mut Vec<u8>, xs: &Vec<Outlay>, i: usize)
    requires
        i <= xs@.len(),
    ensures
        final(out)@ == old(out)@ + enc_outlay_seq(
            xs@.map_values(|x: Outlay| x@).skip(i as int),
        ),
    decreases xs@.len() - i,
{
    let ghost m = xs@.map_values(|x: Outlay| x@);
    if i < xs.len() {
        encode_outlay_into(out, &xs[i]);
        encode_outlay_seq_from(out, xs, i + 1);
        proof {
            assert(m.skip(i as int)[0] == m[i as int]);
            assert(m.skip(i as int).drop_first() =~= m.skip(i as int + 1));
            assert(out@ =~= old(out)@ + enc_outlay_seq(m.skip(i as int)));
        }
    } else {
        proof {
            assert(m.skip(i as int) =~= Seq::<OutlayModel>::empty());
            assert(out@ =~= old(out)@ + enc_outlay_seq(m.skip(i as int)));
        }
    }
}

fn decode_outlay_seq_at(bytes: &Vec<u8>, pos: usize, count: u64) -> (r: Result<
    (Vec<Outlay>, usize),
    ConversionError,
>)
    ensures
        match dec_outlay_seq(bytes@, pos as int, count as nat) {
            Some(lj) => r matches Ok(p) && p.0@.map_values(|x: Outlay| x@) == lj.0 && p.1 as int
                == lj.1,
            None => r matches Err(e) && e == ConversionError::InvalidEncoding,
        },
    decreases count,
{
    if count == 0 {
        let empty: Vec<Outlay> = Vec::new();
        assert(empty@.map_values(|x: Outlay| x@) =~= Seq::<OutlayModel>::empty());
        Ok((empty, pos))
    } else {
        let (x, j) = match decode_outlay_at(bytes, pos) {
            Ok(p) => p,
            Err(e) => {
                return Err(e);
            },
        };
        let (mut rest, k) = match decode_outlay_seq_at(bytes, j, count - 1) {
            Ok(p) => p,
            Err(e) => {
                return Err(e);
            },
        };
        rest.insert(0, x);
        proof {
            let lj = dec_outlay_seq(bytes@, pos as int, count as nat);
            assert(rest@.map_values(|x2: Outlay| x2@) =~= lj->Some_0.0);
        }
        Ok((rest, k))
    }
}

pub open spec fn enc_outlay_list(xs: Seq<OutlayModel>) -> Seq<u8> {
    enc_u64(xs.len() as u64) + enc_outlay_seq(xs)
}

pub open spec fn dec_outlay_list(s: Seq<u8>, i: int) -> Option<(Seq<OutlayModel>, int)> {
    match dec_u64(s, i) {
        Some((n, j)) => dec_outlay_seq(s, j, n as nat),
        None => None,
    }
}

pub proof fn lemma_dec_enc_outlay_list(s: Seq<u8>, i: int, xs: Seq<OutlayModel>)
    requires
        wf_outlay_seq(xs),
        0 <= i,
        i + enc_outlay_list(xs).len() <= s.len(),
        s.subrange(i, i + enc_outlay_list(xs).len() as int) == enc_outlay_list(xs),
    ensures
        dec_outlay_list(s, i) == Some((xs, i + enc_outlay_list(xs).len() as int)),
{
    let e1 = enc_u64(xs.len() as u64);
    let rest = enc_outlay_seq(xs);
    let e = enc_outlay_list(xs);
    assert(Seq::empty() + e1 + rest =~= e);
    lemma_chunk(s, i, Seq::empty(), e1, rest);
    assert(s.subrange(i, i + e1.len() as int) == e1);
    lemma_dec_enc_u64(s, i, xs.len() as u64);
    let i1 = i + e1.len() as int;
    assert(e1 + rest + Seq::<u8>::empty() =~= e);
    lemma_chunk(s, i, e1, rest, Seq::empty());
    lemma_dec_enc_outlay_seq(s, i1, xs);
}

fn encode_outlay_list_into(out: &mut Vec<u8>, xs: &Vec<Outlay>)
    ensures
        final(out)@ == old(out)@ + enc_outlay_list(xs@.map_values(|x: Outlay| x@)),
{
    write_u64(out, xs.len() as u64);
    encode_outlay_seq_from(out, xs, 0);
    proof {
        let m = xs@.map_values(|x: Outlay| x@);
        assert(m.skip(0) =~= m);
        assert(out@ =~= old(out)@ + enc_outlay_list(m));
    }
}

fn decode_outlay_list_at(bytes: &Vec<u8>, pos: usize) -> (r: Result<
    (Vec<Outlay>, usize),
    ConversionError,
>)
    ensures
        match dec_outlay_list(bytes@, pos as int) {
            Some(lj) => r matches Ok(p) && p.0@.map_values(|x: Outlay| x@) == lj.0 && p.1 as int
                == lj.1,
            None => r matches Err(e) && e == ConversionError::InvalidEncoding,
        },
{
    let (n, j) = match read_u64(bytes, pos) {
        Ok(p) => p,
        Err(e) => {
            return Err(e);
        },
    };
    decode_outlay_seq_at(bytes, j, n)
}

// ---------------------------------------------------------------------------
// The outlay-to-output mapping: a list of key/value pairs
// ---------------------------------------------------------------------------

pub open spec fn enc_pair(p: (u64, u64)) -> Seq<u8> {
    enc_u64(p.0) + enc_u64(p.1)
}

pub open spec fn dec_pair(s: Seq<u8>, i: int) -> Option<((u64, u64), int)> {
    match dec_u64(s, i) {
        Some((key, i1)) => match dec_u64(s, i1) {
            Some((value, i2)) => Some(((key, value), i2)),
            None => None,
        },
        None => None,
    }
}

pub proof fn lemma_dec_enc_pair(s: Seq<u8>, i: int, p: (u64, u64))
    requires
        0 <= i,
        i + enc_pair(p).len() <= s.len(),
        s.subrange(i, i + enc_pair(p).len() as int) == enc_pair(p),
    ensures
        dec_pair(s, i) == Some((p, i + enc_pair(p).len() as int)),
{
    let e1 = enc_u64(p.0);
    let e2 = enc_u64(p.1);
    let e = enc_pair(p);
    assert(Seq::empty() + e1 + e2 =~= e);
    lemma_chunk(s, i, Seq::empty(), e1, e2);
    assert(s.subrange(i, i + e1.len() as int) == e1);
    lemma_dec_enc_u64(s, i, p.0);
    let i1 = i + e1.len() as int;
    assert(e1 + e2 + Seq::<u8>::empty() =~= e);
    lemma_chunk(s, i, e1, e2, Seq::empty());
    lemma_dec_enc_u64(s, i1, p.1);
}

pub open spec fn enc_pair_seq(xs: Seq<(u64, u64)>) -> Seq<u8>
    decreases xs.len(),
{
    if xs.len() == 0 {
        Seq::empty()
    } else {
        enc_pair(xs[0]) + enc_pair_seq(xs.drop_first())
    }
}

pub open spec fn dec_pair_seq(s: Seq<u8>, i: int, count: nat) -> Option<(Seq<(u64, u64)>, int)>
    decreases count,
{
    if count == 0 {
        Some((Seq::empty(), i))
    } else {
        match dec_pair(s, i) {
            Some((x, j)) => match dec_pair_seq(s, j, (count - 1) as nat) {
                Some((rest, k)) => Some((seq![x] + rest, k)),
                None => None,
            },
            None => None,
        }
    }
}

pub proof fn lemma_dec_enc_pair_seq(s: Seq<u8>, i: int, xs: Seq<(u64, u64)>)
    requires
        0 <= i,
        i + enc_pair_seq(xs).len() <= s.len(),
        s.subrange(i, i + enc_pair_seq(xs).len() as int) == enc_pair_seq(xs),
    ensures
        dec_pair_seq(s, i, xs.len()) == Some((xs, i + enc_pair_seq(xs).len() as int)),
    decreases xs.len(),
{
    if xs.len() == 0 {
        assert(xs =~= Seq::<(u64, u64)>::empty());
    } else {
        let e1 = enc_pair(xs[0]);
        let rest = enc_pair_seq(xs.drop_first());
        let e = enc_pair_seq(xs);
        assert(Seq::empty() + e1 + rest =~= e);
        lemma_chunk(s, i, Seq::empty(), e1, rest);
        assert(s.subrange(i, i + e1.len() as int) == e1);
        lemma_dec_enc_pair(s, i, xs[0]);
        let i1 = i + e1.len() as int;
        assert(e1 + rest + Seq::<u8>::empty() =~= e);
        lemma_chunk(s, i, e1, rest, Seq::empty());
        lemma_dec_enc_pair_seq(s, i1, xs.drop_first());
        assert(seq![xs[0]] + xs.drop_first() =~= xs);
    }
}

fn encode_pair_seq_from(out: &mut Vec<u8>, xs: &Vec<(u64, u64)>, i: usize)
    requires
        i <= xs@.len(),
    ensures
        final(out)@ == old(out)@ + enc_pair_seq(xs@.skip(i as int)),
    decreases xs@.len() - i,
{
    if i < xs.len() {
        let (key, value) = xs[i];
        write_u64(out, key);
        write_u64(out, value);
        encode_pair_seq_from(out, xs, i + 1);
        proof {
            assert(xs@.skip(i as int)[0] == xs@[i as int]);
            assert(xs@.skip(i as int).drop_first() =~= xs@.skip(i as int + 1));
            assert(out@ =~= old(out)@ + enc_pair_seq(xs@.skip(i as int)));
        }
    } else {
        proof {
            assert(xs@.skip(i as int) =~= Seq::<(u64, u64)>::empty());
            assert(out@ =~= old(out)@ + enc_pair_seq(xs@.skip(i as int)));
        }
    }
}

fn decode_pair_seq_at(bytes: &Vec<u8>, pos: usize, count: u64) -> (r: Result<
    (Vec<(u64, u64)>, usize),
    ConversionError,
>)
    ensures
        match dec_pair_seq(bytes@, pos as int, count as nat) {
            Some(lj) => r matches Ok(p) && p.0@ == lj.0 && p.1 as int == lj.1,
            None => r matches Err(e) && e == ConversionError::InvalidEncoding,
        },
    decreases count,
{
    if count == 0 {
        let empty: Vec<(u64, u64)> = Vec::new();
        assert(empty@ =~= Seq::<(u64, u64)>::empty());
        Ok((empty, pos))
    } else {
        let (key, i1) = match read_u64(bytes, pos) {
            Ok(p) => p,
            Err(e) => {
                return Err(e);
            },
        };
        let (value, i2) = match read_u64(bytes, i1) {
            Ok(p) => p,
            Err(e) => {
                return Err(e);
            },
        };
        let (mut rest, k) = match decode_pair_seq_at(bytes, i2, count - 1) {
            Ok(p) => p,
            Err(e) => {
                return Err(e);
            },
        };
        rest.insert(0, (key, value));
        proof {
            let lj = dec_pair_seq(bytes@, pos as int, count as nat);
            assert(rest@ =~= lj->Some_0.0);
        }
        Ok((rest, k))
    }
}

pub open spec fn wf_pair_seq(xs: Seq<(u64, u64)>) -> bool {
    xs.len() <= u64::MAX
}

pub open spec fn enc_pair_list(xs: Seq<(u64, u64)>) -> Seq<u8> {
    enc_u64(xs.len() as u64) + enc_pair_seq(xs)
}

pub open spec fn dec_pair_list(s: Seq<u8>, i: int) -> Option<(Seq<(u64, u64)>, int)> {
    match dec_u64(s, i) {
        Some((n, j)) => dec_pair_seq(s, j, n as nat),
        None => None,
    }
}

pub proof fn lemma_dec_enc_pair_list(s: Seq<u8>, i: int, xs: Seq<(u64, u64)>)
    requires
        wf_pair_seq(xs),
        0 <= i,
        i + enc_pair_list(xs).len() <= s.len(),
        s.subrange(i, i + enc_pair_list(xs).len() as int) == enc_pair_list(xs),
    ensures
        dec_pair_list(s, i) == Some((xs, i + enc_pair_list(xs).len() as int)),
{
    let e1 = enc_u64(xs.len() as u64);
    let rest = enc_pair_seq(xs);
    let e = enc_pair_list(xs);
    assert(Seq::empty() + e1 + rest =~= e);
    lemma_chunk(s, i, Seq::empty(), e1, rest);
    assert(s.subrange(i, i + e1.len() as int) == e1);
    lemma_dec_enc_u64(s, i, xs.len() as u64);
    let i1 = i + e1.len() as int;
    assert(e1 + rest + Seq::<u8>::empty() =~= e);
    lemma_chunk(s, i, e1, rest, Seq::empty());
    lemma_dec_enc_pair_seq(s, i1, xs);
}

fn encode_pair_list_into(out: &mut Vec<u8>, xs: &Vec<(u64, u64)>)
    ensures
        final(out)@ == old(out)@ + enc_pair_list(xs@),
{
    write_u64(out, xs.len() as u64);
    encode_pair_seq_from(out, xs, 0);
    proof {
        assert(xs@.skip(0) =~= xs@);
        assert(out@ =~= old(out)@ + enc_pair_list(xs@));
    }
}

fn decode_pair_list_at(bytes: &Vec<u8>, pos: usize) -> (r: Result<
    (Vec<(u64, u64)>, usize),
    ConversionError,
>)
    ensures
        match dec_pair_list(bytes@, pos as int) {
            Some(lj) => r matches Ok(p) && p.0@ == lj.0 && p.1 as int == lj.1,
            None => r matches Err(e) && e == ConversionError::InvalidEncoding,
        },
{
    let (n, j) = match read_u64(bytes, pos) {
        Ok(p) => p,
        Err(e) => {
            return Err(e);
        },
    };
    decode_pair_seq_at(bytes, j, n)
}

// ---------------------------------------------------------------------------
// Transactions
// ---------------------------------------------------------------------------

pub open spec fn wf_tx(t: TxModel) -> bool {
    &&& wf_txout_seq(t.outputs)
    &&& wf_bytes(t.range_proof)
}

pub open spec fn enc_tx(t: TxModel) -> Seq<u8> {
    enc_u64(t.fee) + enc_txout_list(t.outputs) + enc_bytes(t.range_proof)
}

pub open spec fn dec_tx(s: Seq<u8>, i: int) -> Option<(TxModel, int)> {
    match dec_u64(s, i) {
        Some((fee, i1)) => match dec_txout_list(s, i1) {
            Some((outputs, i2)) => match dec_bytes(s, i2) {
                Some((range_proof, i3)) => Some((TxModel { fee, outputs, range_proof }, i3)),
                None => None,
            },
            None => None,
        },
        None => None,
    }
}

pub proof fn lemma_dec_enc_tx(s: Seq<u8>, i: int, t: TxModel)
    requires
        wf_tx(t),
        0 <= i,
        i + enc_tx(t).len() <= s.len(),
        s.subrange(i, i + enc_tx(t).len() as int) == enc_tx(t),
    ensures
        dec_tx(s, i) == Some((t, i + enc_tx(t).len() as int)),
{
    let e1 = enc_u64(t.fee);
    let e2 = enc_txout_list(t.outputs);
    let e3 = enc_bytes(t.range_proof);
    let e = enc_tx(t);
    assert(Seq::empty() + e1 + (e2 + e3) =~= e);
    lemma_chunk(s, i, Seq::empty(), e1, e2 + e3);
    assert(s.subrange(i, i + e1.len() as int) == e1);
    lemma_dec_enc_u64(s, i, t.fee);
    let i1 = i + e1.len() as int;
    assert(e1 + e2 + e3 =~= e);
    lemma_chunk(s, i, e1, e2, e3);
    lemma_dec_enc_txout_list(s, i1, t.outputs);
    let i2 = i1 + e2.len() as int;
    assert(e1 + e2 + e3 + Seq::<u8>::empty() =~= e);
    lemma_chunk(s, i, e1 + e2, e3, Seq::empty());
    lemma_dec_enc_bytes(s, i2, t.range_proof);
}

pub fn encode_tx_into(out: &mut Vec<u8>, t: &Tx)
    ensures
        final(out)@ == old(out)@ + enc_tx(t@),
{
    write_u64(out, t.fee);
    encode_txout_list_into(out, &t.outputs);
    write_bytes(out, &t.range_proof);
    assert(out@ =~= old(out)@ + enc_tx(t@));
}

pub fn decode_tx_at(bytes: &Vec<u8>, pos: usize) -> (r: Result<(Tx, usize), ConversionError>)
    ensures
        match dec_tx(bytes@, pos as int) {
            Some(tj) => r matches Ok(p) && p.0@ == tj.0 && p.1 as int == tj.1,
            None => r matches Err(e) && e == ConversionError::InvalidEncoding,
        },
{
    let (fee, i1) = match read_u64(bytes, pos) {
        Ok(p) => p,
        Err(e) => {
            return Err(e);
        },
    };
    let (outputs, i2) = match decode_txout_list_at(bytes, i1) {
        Ok(p) => p,
        Err(e) => {
            return Err(e);
        },
    };
    let (range_proof, i3) = match read_bytes(bytes, i2) {
        Ok(p) => p,
        Err(e) => {
            return Err(e);
        },
    };
    Ok((Tx { fee, outputs, range_proof }, i3))
}

// ---------------------------------------------------------------------------
// Proposals
// ---------------------------------------------------------------------------

pub open spec fn wf_proposal(p: TxProposalModel) -> bool {
    &&& wf_utxo_seq(p.utxos)
    &&& wf_outlay_seq(p.outlays)
    &&& wf_tx(p.tx)
    &&& wf_pair_seq(p.outlay_index_to_tx_out_index)
}

pub open spec fn enc_proposal(p: TxProposalModel) -> Seq<u8> {
    enc_utxo_list(p.utxos) + enc_outlay_list(p.outlays) + enc_tx(p.tx) + enc_u64(p.fee)
        + enc_pair_list(p.outlay_index_to_tx_out_index)
}

pub open spec fn dec_proposal(s: Seq<u8>, i: int) -> Option<(TxProposalModel, int)> {
    match dec_utxo_list(s, i) {
        Some((utxos, i1)) => match dec_outlay_list(s, i1) {
            Some((outlays, i2)) => match dec_tx(s, i2) {
                Some((tx, i3)) => match dec_u64(s, i3) {
                    Some((fee, i4)) => match dec_pair_list(s, i4) {
                        Some((mapping, i5)) => Some(
                            (
                                TxProposalModel {
                                    utxos,
                                    outlays,
                                    tx,
                                    fee,
                                    outlay_index_to_tx_out_index: mapping,
                                },
                                i5,
                            ),
                        ),
                        None => None,
                    },
                    None => None,
                },
                None => None,
            },
            None => None,
        },
        None => None,
    }
}

pub proof fn lemma_dec_enc_proposal(s: Seq<u8>, i: int, p: TxProposalModel)
    requires
        wf_proposal(p),
        0 <= i,
        i + enc_proposal(p).len() <= s.len(),
        s.subrange(i, i + enc_proposal(p).len() as int) == enc_proposal(p),
    ensures
        dec_proposal(s, i) == Some((p, i + enc_proposal(p).len() as int)),
{
    let e1 = enc_utxo_list(p.utxos);
    let e2 = enc_outlay_list(p.outlays);
    let e3 = enc_tx(p.tx);
    let e4 = enc_u64(p.fee);
    let e5 = enc_pair_list(p.outlay_index_to_tx_out_index);
    let e = enc_proposal(p);
    assert(Seq::empty() + e1 + (e2 + e3 + e4 + e5) =~= e);
    lemma_chunk(s, i, Seq::empty(), e1, e2 + e3 + e4 + e5);
    assert(s.subrange(i, i + e1.len() as int) == e1);
    lemma_dec_enc_utxo_list(s, i, p.utxos);
    let i1 = i + e1.len() as int;
    assert(e1 + e2 + (e3 + e4 + e5) =~= e);
    lemma_chunk(s, i, e1, e2, e3 + e4 + e5);
    lemma_dec_enc_outlay_list(s, i1, p.outlays);
    let i2 = i1 + e2.len() as int;
    assert(e1 + e2 + e3 + (e4 + e5) =~= e);
    lemma_chunk(s, i, e1 + e2, e3, e4 + e5);
    lemma_dec_enc_tx(s, i2, p.tx);
    let i3 = i2 + e3.len() as int;
    assert(e1 + e2 + e3 + e4 + e5 =~= e);
    lemma_chunk(s, i, e1 + e2 + e3, e4, e5);
    lemma_dec_enc_u64(s, i3, p.fee);
    let i4 = i3 + e4.len() as int;
    assert(e1 + e2 + e3 + e4 + e5 + Seq::<u8>::empty() =~= e);
    lemma_chunk(s, i, e1 + e2 + e3 + e4, e5, Seq::empty());
    lemma_dec_enc_pair_list(s, i4, p.outlay_index_to_tx_out_index);
}

// ---------------------------------------------------------------------------
// Whole messages
// ---------------------------------------------------------------------------

/// Encode an `UnspentTxOut` message.
pub fn encode_unspent_tx_out(u: &UnspentTxOut) -> (r: Vec<u8>)
    ensures
        r@ == enc_utxo(u@),
{
    let mut out: Vec<u8> = Vec::new();
    encode_unspent_tx_out_into(&mut out, u);
    assert(out@ =~= enc_utxo(u@));
    out
}

/// Decode an `UnspentTxOut` message; the whole input must be consumed.
pub fn decode_unspent_tx_out(bytes: &Vec<u8>) -> (r: Result<UnspentTxOut, ConversionError>)
    ensures
        match dec_utxo(bytes@, 0) {
            Some(uj) => if uj.1 == bytes@.len() {
                r matches Ok(u) && u@ == uj.0
            } else {
                r matches Err(e) && e == ConversionError::InvalidEncoding
            },
            None => r matches Err(e) && e == ConversionError::InvalidEncoding,
        },
{
    let (u, end) = match decode_unspent_tx_out_at(bytes, 0) {
        Ok(p) => p,
        Err(e) => {
            return Err(e);
        },
    };
    if end != bytes.len() {
        return Err(ConversionError::InvalidEncoding);
    }
    Ok(u)
}

/// Encode an `Outlay` message.
pub fn encode_outlay(o: &Outlay) -> (r: Vec<u8>)
    ensures
        r@ == enc_outlay(o@),
{
    let mut out: Vec<u8> = Vec::new();
    encode_outlay_into(&mut out, o);
    assert(out@ =~= enc_outlay(o@));
    out
}

/// Decode an `Outlay` message; the whole input must be consumed.
pub fn decode_outlay(bytes: &Vec<u8>) -> (r: Result<Outlay, ConversionError>)
    ensures
        match dec_outlay(bytes@, 0) {
            Some(oj) => if oj.1 == bytes@.len() {
                r matches Ok(o) && o@ == oj.0
            } else {
                r matches Err(e) && e == ConversionError::InvalidEncoding
            },
            None => r matches Err(e) && e == ConversionError::InvalidEncoding,
        },
{
    let (o, end) = match decode_outlay_at(bytes, 0) {
        Ok(p) => p,
        Err(e) => {
            return Err(e);
        },
    };
    if end != bytes.len() {
        return Err(ConversionError::InvalidEncoding);
    }
    Ok(o)
}

/// Encode a `TxProposal` message.
pub fn encode_tx_proposal(p: &TxProposal) -> (r: Vec<u8>)
    ensures
        r@ == enc_proposal(p@),
{
    let mut out: Vec<u8> = Vec::new();
    encode_utxo_list_into(&mut out, &p.utxos);
    encode_outlay_list_into(&mut out, &p.outlays);
    encode_tx_into(&mut out, &p.tx);
    write_u64(&mut out, p.fee);
    encode_pair_list_into(&mut out, &p.outlay_index_to_tx_out_index);
    assert(out@ =~= enc_proposal(p@));
    out
}

/// Decode a `TxProposal` message; the whole input must be consumed, and the
/// proposal's invariants are re-checked by the validator before the value is
/// handed to any caller.
pub fn decode_tx_proposal(bytes: &Vec<u8>) -> (r: Result<TxProposal, ConversionError>)
    ensures
        match dec_proposal(bytes@, 0) {
            Some(pj) => if pj.1 == bytes@.len() {
                if crate::proposal::valid_proposal(pj.0) {
                    r matches Ok(p) && p@ == pj.0
                } else if !crate::proposal::fee_matches(pj.0) {
                    r matches Err(e) && e == ConversionError::FeeMismatch
                } else {
                    r matches Err(e) && e == ConversionError::IndexOutOfBounds
                }
            } else {
                r matches Err(e) && e == ConversionError::InvalidEncoding
            },
            None => r matches Err(e) && e == ConversionError::InvalidEncoding,
        },
{
    let (utxos, i1) = match decode_utxo_list_at(bytes, 0) {
        Ok(p) => p,
        Err(e) => {
            return Err(e);
        },
    };
    let (outlays, i2) = match decode_outlay_list_at(bytes, i1) {
        Ok(p) => p,
        Err(e) => {
            return Err(e);
        },
    };
    let (tx, i3) = match decode_tx_at(bytes, i2) {
        Ok(p) => p,
        Err(e) => {
            return Err(e);
        },
    };
    let (fee, i4) = match read_u64(bytes, i3) {
        Ok(p) => p,
        Err(e) => {
            return Err(e);
        },
    };
    let (mapping, i5) = match decode_pair_list_at(bytes, i4) {
        Ok(p) => p,
        Err(e) => {
            return Err(e);
        },
    };
    if i5 != bytes.len() {
        return Err(ConversionError::InvalidEncoding);
    }
    let proposal = TxProposal { utxos, outlays, tx, fee, outlay_index_to_tx_out_index: mapping };
    match crate::proposal::validate(&proposal) {
        Ok(()) => Ok(proposal),
        Err(e) => Err(e),
    }
}

// ---------------------------------------------------------------------------
// Round-trip laws
// ---------------------------------------------------------------------------

/// Decoding the encoding of any unspent-output record yields the record,
/// consuming the whole encoding.
pub proof fn lemma_unspent_tx_out_round_trip(u: UnspentTxOutModel)
    requires
        wf_utxo(u),
    ensures
        dec_utxo(enc_utxo(u), 0) == Some((u, enc_utxo(u).len() as int)),
{
    let e = enc_utxo(u);
    assert(e.subrange(0, e.len() as int) =~= e);
    lemma_dec_enc_utxo(e, 0, u);
}

/// Decoding the encoding of any outlay yields the outlay, consuming the
/// whole encoding.
pub proof fn lemma_outlay_round_trip(o: OutlayModel)
    requires
        wf_outlay(o),
    ensures
        dec_outlay(enc_outlay(o), 0) == Some((o, enc_outlay(o).len() as int)),
{
    let e = enc_outlay(o);
    assert(e.subrange(0, e.len() as int) =~= e);
    lemma_dec_enc_outlay(e, 0, o);
}

/// Decoding the encoding of any proposal yields the proposal, consuming the
/// whole encoding.
pub proof fn lemma_tx_proposal_round_trip(p: TxProposalModel)
    requires
        wf_proposal(p),
    ensures
        dec_proposal(enc_proposal(p), 0) == Some((p, enc_proposal(p).len() as int)),
{
    let e = enc_proposal(p);
    assert(e.subrange(0, e.len() as int) =~= e);
    lemma_dec_enc_proposal(e, 0, p);
}

} // verus!
