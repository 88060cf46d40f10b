//! Inputs that fund a channel.

use vstd::prelude::*;
use crate::bitcoin_calls::{compute_txid, is_p2wpkh, new_p2wpkh_script, zero_pubkey_hash};
use crate::bitcoin_calls::{is_p2wpkh_script, p2wpkh_script_of, txid_of};
use crate::ids::{OutPoint, Txid};
use crate::tx::{Transaction, TransactionView, TxIn, TxInView, TxOut, TxOutView};
use crate::tx::{TX_LOCK_TIME, TX_VERSION};
use crate::views::{group_view_all, view_all};

verus! {

broadcast use group_view_all;

/// An output that the holder can spend, together with the transaction that made it. The weight
/// of the witness that is going to unlock it is not part of it.
#[derive(Debug)]
pub struct FundingTxInput {
    outpoint: OutPoint,
    output: TxOut,
    prevtx: Transaction,
}

/// What a [`FundingTxInput`] holds.
pub struct FundingTxInputView {
    pub outpoint: OutPoint,
    pub output: TxOutView,
    pub prevtx: TransactionView,
}

impl View for FundingTxInput {
    type V = FundingTxInputView;

    closed spec fn view(&self) -> FundingTxInputView {
        FundingTxInputView {
            outpoint: self.outpoint,
            output: self.output@,
            prevtx: self.prevtx@,
        }
    }
}

/// `prevtx` has an output `vout`, and that output pays to a witness key hash.
pub open spec fn spendable(prevtx: TransactionView, vout: u32) -> bool {
    &&& vout < prevtx.output.len()
    &&& is_p2wpkh_script(prevtx.output[vout as int].script_pubkey)
}

/// The input that spends output `vout` of `prevtx`, a transaction identified by `txid`.
pub open spec fn input_spending(
    prevtx: TransactionView,
    vout: u32,
    txid: Txid,
) -> FundingTxInputView {
    FundingTxInputView {
        outpoint: OutPoint { txid, vout },
        output: prevtx.output[vout as int],
        prevtx,
    }
}

impl FundingTxInputView {
    /// The input spends a witness key hash output of the transaction that it carries.
    pub open spec fn valid(self) -> bool {
        &&& spendable(self.prevtx, self.outpoint.vout)
        &&& self == input_spending(self.prevtx, self.outpoint.vout, txid_of(self.prevtx.unsigned()))
    }
}

/// Every input of `inputs` is valid.
pub open spec fn all_valid(inputs: Seq<FundingTxInputView>) -> bool {
    forall|k: int| 0 <= k < inputs.len() ==> (#[trigger] inputs[k]).valid()
}

/// The sum of the amounts that `inputs` spend.
pub open spec fn total_sats(inputs: Seq<FundingTxInputView>) -> int
    decreases inputs.len(),
{
    if inputs.len() == 0 {
        0
    } else {
        total_sats(inputs.drop_last()) + inputs.last().output.value_sats
    }
}

/// A sum of amounts grows with the number of inputs, and no faster than the largest amount
/// allows.
pub proof fn lemma_total_sats_bounds(inputs: Seq<FundingTxInputView>)
    ensures
        0 <= total_sats(inputs) <= inputs.len() * u64::MAX,
    decreases inputs.len(),
{
    if inputs.len() > 0 {
        lemma_total_sats_bounds(inputs.drop_last());
        assert(inputs.len() * u64::MAX == (inputs.len() - 1) * u64::MAX + u64::MAX)
            by (nonlinear_arith);
    }
}

impl FundingTxInput {
    /// The input that spends output `vout` of `prevtx`. Refused if there is no such output,
    /// or if it does not pay to a witness key hash.
    pub fn new_p2wpkh(prevtx: Transaction, vout: u32) -> (r: Result<FundingTxInput, ()>)
        ensures
            r is Ok <==> spendable(prevtx@, vout),
            r matches Ok(input) ==> input@ == input_spending(
                prevtx@,
                vout,
                txid_of(prevtx@.unsigned()),
            ) && input@.valid(),
    {
        let txid = compute_txid(&prevtx);
        FundingTxInput::new_p2wpkh_with_txid(prevtx, vout, txid)
    }

    /// As [`FundingTxInput::new_p2wpkh`], for a transaction whose identifier is known.
    pub fn new_p2wpkh_with_txid(prevtx: Transaction, vout: u32, txid: Txid) -> (r: Result<
        FundingTxInput,
        (),
    >)
        ensures
            r is Ok <==> spendable(prevtx@, vout),
            r matches Ok(input) ==> input@ == input_spending(prevtx@, vout, txid),
    {
        let k: usize = vout as usize;
        if k >= prevtx.output.len() || !is_p2wpkh(&prevtx.output[k].script_pubkey) {
            return Err(());
        }
        let output = prevtx.output[k].clone();
        Ok(FundingTxInput { outpoint: OutPoint { txid, vout }, output, prevtx })
    }

    /// The output that the input spends.
    pub fn outpoint(&self) -> (r: OutPoint)
        ensures
            r == self@.outpoint,
    {
        self.outpoint
    }

    /// The amount that the input spends.
    pub fn value_sats(&self) -> (r: u64)
        ensures
            r == self@.output.value_sats,
    {
        self.output.value_sats
    }

    /// The script of the output that the input spends.
    pub fn script_pubkey(&self) -> (r: &Vec<u8>)
        ensures
            r@ == self@.output.script_pubkey,
    {
        &self.output.script_pubkey
    }

    /// The transaction whose output the input spends.
    pub fn prevtx(&self) -> (r: &Transaction)
        ensures
            r@ == self@.prevtx,
    {
        &self.prevtx
    }

    /// Gives up the input for the transaction that it carries.
    pub fn into_prevtx(self) -> (r: Transaction)
        ensures
            r@ == self@.prevtx,
    {
        self.prevtx
    }
}

/// Adds up the amounts that `inputs` spend.
pub fn total_value(inputs: &Vec<FundingTxInput>) -> (r: u128)
    ensures
        r == total_sats(view_all(inputs@)),
{
    let ghost all = view_all(inputs@);
    let mut sum: u128 = 0;
    let mut k: usize = 0;
    assert(all.take(0) =~= Seq::<FundingTxInputView>::empty());
    while k < inputs.len()
        invariant
            k <= inputs.len(),
            all == view_all(inputs@),
            sum == total_sats(all.take(k as int)),
        decreases inputs.len() - k,
    {
        proof {
            let next = all.take(k + 1);
            assert(next.drop_last() =~= all.take(k as int));
            assert(next.last() == inputs[k as int]@);
            lemma_total_sats_bounds(next);
            assert(next.len() * u64::MAX <= u128::MAX) by (nonlinear_arith)
                requires
                    next.len() <= usize::MAX,
            ;
        }
        sum = sum + inputs[k].value_sats() as u128;
        k = k + 1;
    }
    assert(all.take(k as int) =~= all);
    sum
}

/// A transaction that has no inputs and the one output `output`.
pub open spec fn single_output_tx(output: TxOutView) -> TransactionView {
    TransactionView {
        version: TX_VERSION,
        lock_time: TX_LOCK_TIME,
        input: Seq::<TxInView>::empty(),
        output: seq![output],
    }
}

/// Makes a transaction that has no inputs and the one output `output`.
pub fn make_single_output_tx(output: TxOut) -> (tx: Transaction)
    ensures
        tx@ == single_output_tx(output@),
        tx.version == 2,
        tx.lock_time == 0,
        tx@.input.len() == 0,
        tx@.output.len() == 1,
        tx@.output[0] == output@,
{
    let input: Vec<TxIn> = Vec::new();
    let mut outputs: Vec<TxOut> = Vec::new();
    outputs.push(output);
    let tx = Transaction {
        version: TX_VERSION,
        lock_time: TX_LOCK_TIME,
        input,
        output: outputs,
    };
    assert(tx@.output =~= seq![output@]);
    tx
}

/// The output of a dummy funding input: `value_sats` paid to the key hash of zeros.
pub open spec fn dummy_output(value_sats: u64) -> TxOutView {
    TxOutView {
        value_sats,
        script_pubkey: p2wpkh_script_of(Seq::new(20, |k: int| 0u8)),
    }
}

/// Creates a mock funding input (a witness key hash output) with the given value in satoshis.
/// It uses a dummy script, for which no wallet holds the key.
pub fn create_dummy_funding_input(value_sats: u64) -> (r: FundingTxInput)
    ensures
        r@ == input_spending(
            single_output_tx(dummy_output(value_sats)),
            0,
            txid_of(single_output_tx(dummy_output(value_sats)).unsigned()),
        ),
        r@.valid(),
        r@.output == dummy_output(value_sats),
        r@.output.value_sats == value_sats,
        r@.output.script_pubkey.len() == 22,
        r@.output.script_pubkey[0] == 0,
        r@.output.script_pubkey[1] == 20,
        forall|k: int| 2 <= k < 22 ==> #[trigger] r@.output.script_pubkey[k] == 0,
        r@.outpoint.vout == 0,
        r@.outpoint.txid == txid_of(r@.prevtx.unsigned()),
        r@.prevtx.version == 2,
        r@.prevtx.lock_time == 0,
        r@.prevtx.input.len() == 0,
        r@.prevtx.output == seq![r@.output],
{
    let prevout = TxOut { value_sats, script_pubkey: new_p2wpkh_script(&zero_pubkey_hash()) };
    let prevtx = make_single_output_tx(prevout);
    FundingTxInput::new_p2wpkh(prevtx, 0).unwrap()
}

} // verus!
