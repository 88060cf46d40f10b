//! The calls into the `bitcoin` crate, each with what is taken on trust about it.

use vstd::prelude::*;
use bitcoin::hashes::Hash as HashBytes;
use bitcoin::{Amount, OutPoint, ScriptBuf, Sequence, Witness};
use crate::ids::Txid;
use crate::tx::{Transaction, TransactionView};

verus! {

/// The form of a script that pays to a version 0 witness key hash: the version byte, the
/// length of the hash, and the hash itself.
pub open spec fn is_p2wpkh_script(script: Seq<u8>) -> bool {
    &&& script.len() == 22
    &&& script[0] == 0
    &&& script[1] == 20
}

/// The form of a script that pays to a witness program: a version from 0 to 16, and the push of
/// a program of 2 to 40 bytes.
pub open spec fn is_witness_script(script: Seq<u8>) -> bool {
    &&& 4 <= script.len() <= 42
    &&& script[0] == 0 || 0x51 <= script[0] <= 0x60
    &&& script[1] == script.len() - 2
}

/// The script that pays to the witness key hash `hash`.
pub open spec fn p2wpkh_script_of(hash: Seq<u8>) -> Seq<u8> {
    seq![0u8, 20u8] + hash
}

/// The identifier of a transaction, as `bitcoin::Transaction::compute_txid` computes it.
pub uninterp spec fn txid_of(unsigned: TransactionView) -> Txid;

/// Calls `bitcoin::Script::is_p2wpkh`. Trusted: it tells exactly the scripts of 22 bytes
/// that begin with the version byte 0 and the push of 20 bytes.
#[verifier::external_body]
pub(crate) fn is_p2wpkh(script: &Vec<u8>) -> (r: bool)
    ensures
        r == is_p2wpkh_script(script@),
{
    bitcoin::Script::from_bytes(script).is_p2wpkh()
}

/// Calls `bitcoin::Script::is_witness_program`. Trusted: it tells exactly the scripts that
/// consist of the opcode for a number from 0 to 16 and the push of 2 to 40 bytes.
#[verifier::external_body]
pub(crate) fn is_witness_program(script: &Vec<u8>) -> (r: bool)
    ensures
        r == is_witness_script(script@),
{
    bitcoin::Script::from_bytes(script).is_witness_program()
}

/// Calls `bitcoin::ScriptBuf::new_p2wpkh`. Trusted: the script is the version byte 0, the
/// push of 20 bytes, and the hash.
#[verifier::external_body]
pub(crate) fn new_p2wpkh_script(hash: &[u8; 20]) -> (script: Vec<u8>)
    ensures
        script@ == p2wpkh_script_of(hash@),
{
    bitcoin::ScriptBuf::new_p2wpkh(&bitcoin::WPubkeyHash::from_byte_array(*hash)).into_bytes()
}

/// Calls `all_zeros` of `bitcoin::WPubkeyHash`. Trusted: the hash is 20 bytes of zero.
#[verifier::external_body]
pub(crate) fn zero_pubkey_hash() -> (hash: [u8; 20])
    ensures
        hash@ == Seq::new(20, |k: int| 0u8),
{
    bitcoin::WPubkeyHash::all_zeros().to_byte_array()
}

/// Calls `bitcoin::Transaction::compute_txid`. Trusted: the identifier is a function of the
/// version, the lock time, the outputs, and the inputs without their witnesses. Which function
/// it is (a double hash of the serialized transaction) is left unsaid.
#[verifier::external_body]
pub(crate) fn compute_txid(tx: &Transaction) -> (id: Txid)
    ensures
        id == txid_of(tx@.unsigned()),
{
    let input = tx.input.iter().map(|i| bitcoin::TxIn {
        previous_output: OutPoint::new(
            bitcoin::Txid::from_byte_array(i.previous_output.txid.bytes), i.previous_output.vout),
        script_sig: ScriptBuf::from_bytes(i.script_sig.clone()),
        sequence: Sequence(i.sequence),
        witness: Witness::new(),
    }).collect();
    let output = tx.output.iter().map(|o| bitcoin::TxOut {
        value: Amount::from_sat(o.value_sats),
        script_pubkey: ScriptBuf::from_bytes(o.script_pubkey.clone()),
    }).collect();
    let version = bitcoin::transaction::Version(tx.version);
    let lock_time = bitcoin::absolute::LockTime::from_consensus(tx.lock_time);
    let whole = bitcoin::Transaction { version, lock_time, input, output };
    Txid { bytes: whole.compute_txid().to_byte_array() }
}

} // verus!
