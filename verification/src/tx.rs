//! Transactions as plain values.

use vstd::prelude::*;
use crate::bitcoin_calls::{compute_txid, txid_of};
use crate::ids::{OutPoint, Txid};
use crate::views::{view_all, group_view_all};

verus! {

broadcast use group_view_all;

/// The transaction version of every transaction that this library builds.
pub const TX_VERSION: i32 = 2;

/// The lock time of every transaction that this library builds: none.
pub const TX_LOCK_TIME: u32 = 0;

/// The sequence number of a funding input: replaceable, without a relative lock time.
pub const FUNDING_SEQUENCE: u32 = 0xFFFF_FFFD;

/// A copy of `bytes`.
pub fn copy_bytes(bytes: &Vec<u8>) -> (r: Vec<u8>)
    ensures
        r@ == bytes@,
{
    let r = bytes.clone();
    assert(r@ =~= bytes@);
    r
}

/// A copy of `stack`, a list of byte strings.
pub fn copy_stack(stack: &Vec<Vec<u8>>) -> (r: Vec<Vec<u8>>)
    ensures
        view_all(r@) == view_all(stack@),
{
    let mut r: Vec<Vec<u8>> = Vec::new();
    let mut k: usize = 0;
    while k < stack.len()
        invariant
            k <= stack.len(),
            r.len() == k,
            forall|j: int| 0 <= j < k ==> #[trigger] view_all(r@)[j] == stack[j]@,
        decreases stack.len() - k,
    {
        let ghost before = r@;
        r.push(copy_bytes(&stack[k]));
        assert(view_all(r@) == view_all(before).push(stack[k as int]@));
        k = k + 1;
    }
    assert(view_all(r@) =~= view_all(stack@));
    r
}

/// An output: an amount and the script that guards it.
#[derive(Debug)]
pub struct TxOut {
    pub value_sats: u64,
    pub script_pubkey: Vec<u8>,
}

/// What a [`TxOut`] holds.
pub struct TxOutView {
    pub value_sats: u64,
    pub script_pubkey: Seq<u8>,
}

impl View for TxOut {
    type V = TxOutView;

    open spec fn view(&self) -> TxOutView {
        TxOutView { value_sats: self.value_sats, script_pubkey: self.script_pubkey@ }
    }
}

impl Clone for TxOut {
    fn clone(&self) -> (r: Self)
        ensures
            r@ == self@,
    {
        TxOut { value_sats: self.value_sats, script_pubkey: copy_bytes(&self.script_pubkey) }
    }
}

/// An input: the output that it spends, and the signature script and witness that unlock it.
#[derive(Debug)]
pub struct TxIn {
    pub previous_output: OutPoint,
    pub script_sig: Vec<u8>,
    pub sequence: u32,
    pub witness: Vec<Vec<u8>>,
}

/// What a [`TxIn`] holds.
pub struct TxInView {
    pub previous_output: OutPoint,
    pub script_sig: Seq<u8>,
    pub sequence: u32,
    pub witness: Seq<Seq<u8>>,
}

impl View for TxIn {
    type V = TxInView;

    open spec fn view(&self) -> TxInView {
        TxInView {
            previous_output: self.previous_output,
            script_sig: self.script_sig@,
            sequence: self.sequence,
            witness: view_all(self.witness@),
        }
    }
}

impl Clone for TxIn {
    fn clone(&self) -> (r: Self)
        ensures
            r@ == self@,
    {
        TxIn {
            previous_output: self.previous_output,
            script_sig: copy_bytes(&self.script_sig),
            sequence: self.sequence,
            witness: copy_stack(&self.witness),
        }
    }
}

impl TxInView {
    /// The input without its witness.
    pub open spec fn unsigned(self) -> TxInView {
        TxInView { witness: Seq::empty(), ..self }
    }
}

/// A transaction.
#[derive(Debug)]
pub struct Transaction {
    pub version: i32,
    pub lock_time: u32,
    pub input: Vec<TxIn>,
    pub output: Vec<TxOut>,
}

/// What a [`Transaction`] holds.
pub struct TransactionView {
    pub version: i32,
    pub lock_time: u32,
    pub input: Seq<TxInView>,
    pub output: Seq<TxOutView>,
}

impl View for Transaction {
    type V = TransactionView;

    open spec fn view(&self) -> TransactionView {
        TransactionView {
            version: self.version,
            lock_time: self.lock_time,
            input: view_all(self.input@),
            output: view_all(self.output@),
        }
    }
}

impl TransactionView {
    /// The transaction without its witnesses: what its signatures commit to, and what its
    /// identifier is computed from.
    pub open spec fn unsigned(self) -> TransactionView {
        TransactionView {
            input: Seq::new(self.input.len(), |k: int| self.input[k].unsigned()),
            ..self
        }
    }
}

impl Clone for Transaction {
    fn clone(&self) -> (r: Self)
        ensures
            r@ == self@,
    {
        let mut input: Vec<TxIn> = Vec::new();
        let mut k: usize = 0;
        while k < self.input.len()
            invariant
                k <= self.input.len(),
                view_all(input@) == view_all(self.input@).take(k as int),
            decreases self.input.len() - k,
        {
            let next = self.input[k].clone();
            input.push(next);
            k = k + 1;
            assert(view_all(input@) =~= view_all(self.input@).take(k as int));
        }
        let mut output: Vec<TxOut> = Vec::new();
        let mut k: usize = 0;
        while k < self.output.len()
            invariant
                k <= self.output.len(),
                view_all(output@) == view_all(self.output@).take(k as int),
            decreases self.output.len() - k,
        {
            let next = self.output[k].clone();
            output.push(next);
            k = k + 1;
            assert(view_all(output@) =~= view_all(self.output@).take(k as int));
        }
        let r = Transaction { version: self.version, lock_time: self.lock_time, input, output };
        assert(r@.input =~= self@.input);
        assert(r@.output =~= self@.output);
        r
    }
}

impl Transaction {
    /// The transaction's identifier. Witnesses do not count.
    pub fn compute_txid(&self) -> (id: Txid)
        ensures
            id == txid_of(self@.unsigned()),
    {
        compute_txid(self)
    }

    /// Whether `self` and `other` differ in their witnesses at most.
    pub fn same_unsigned(&self, other: &Transaction) -> (r: bool)
        ensures
            r == (self@.unsigned() == other@.unsigned()),
    {
        let ghost a = self@.unsigned();
        let ghost b = other@.unsigned();
        if self.version != other.version || self.lock_time != other.lock_time || self.input.len()
            != other.input.len() || self.output.len() != other.output.len() {
            assert(a.input.len() == self.input.len() && b.input.len() == other.input.len());
            assert(a.output.len() == self.output.len() && b.output.len() == other.output.len());
            return false;
        }
        let mut k: usize = 0;
        while k < self.input.len()
            invariant
                k <= self.input.len(),
                self.input.len() == other.input.len(),
                a == self@.unsigned(),
                b == other@.unsigned(),
                forall|j: int| 0 <= j < k ==> a.input[j] == b.input[j],
            decreases self.input.len() - k,
        {
            let same_script = self.input[k].script_sig == other.input[k].script_sig;
            proof {
                let s = self.input[k as int].script_sig;
                let t = other.input[k as int].script_sig;
                if same_script {
                    assert(s@ =~= t@);
                }
                assert(same_script == (s@ == t@));
                assert(a.input[k as int] == self.input[k as int]@.unsigned());
                assert(b.input[k as int] == other.input[k as int]@.unsigned());
            }
            if self.input[k].previous_output != other.input[k].previous_output
                || self.input[k].sequence != other.input[k].sequence || !same_script {
                return false;
            }
            k = k + 1;
        }
        assert(a.input =~= b.input);
        let mut k: usize = 0;
        while k < self.output.len()
            invariant
                k <= self.output.len(),
                self.output.len() == other.output.len(),
                a == self@.unsigned(),
                b == other@.unsigned(),
                forall|j: int| 0 <= j < k ==> a.output[j] == b.output[j],
            decreases self.output.len() - k,
        {
            let same_script = self.output[k].script_pubkey == other.output[k].script_pubkey;
            proof {
                let s = self.output[k as int].script_pubkey;
                let t = other.output[k as int].script_pubkey;
                if same_script {
                    assert(s@ =~= t@);
                }
                assert(same_script == (s@ == t@));
                assert(a.output[k as int] == self.output[k as int]@);
                assert(b.output[k as int] == other.output[k as int]@);
            }
            if self.output[k].value_sats != other.output[k].value_sats || !same_script {
                return false;
            }
            k = k + 1;
        }
        assert(a.output =~= b.output);
        true
    }
}

} // verus!
