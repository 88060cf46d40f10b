//! Laws of the wallet: which outputs it lists and selects, and what it makes of them.

use vstd::prelude::*;
use crate::bitcoin_calls::{is_p2wpkh_script, is_witness_script, p2wpkh_script_of, txid_of};
use crate::funding::{input_spending, spendable, FundingTxInputView};
use crate::ids::{OutPoint, Txid};
use crate::tx::TransactionView;
use crate::wallet::{confirmed_of, find_tx, lemma_confirmed_are_listed, lemma_find_tx};
use crate::wallet::{lemma_input_for_amount, lemma_needed_from, sats_of, shows};
use crate::wallet::{LocalUtxoView, WalletTxView, WalletView};

verus! {

/// Tells the confirmed outputs.
pub open spec fn tells_confirmed() -> spec_fn(LocalUtxoView) -> bool {
    |utxo: LocalUtxoView| utxo.confirmed
}

/// A script that pays to a witness key hash consists of 22 bytes: the version 0, the push of 20
/// bytes, and the hash.
pub proof fn law_key_hash_scripts(script: Seq<u8>, hash: Seq<u8>)
    requires
        hash.len() == 20,
    ensures
        is_p2wpkh_script(script) <==> script.len() == 22 && script[0] == 0 && script[1] == 20,
        is_p2wpkh_script(script) ==> is_witness_script(script),
        is_p2wpkh_script(script) ==> script == p2wpkh_script_of(script.skip(2)),
        is_p2wpkh_script(p2wpkh_script_of(hash)),
        p2wpkh_script_of(hash).len() == 22,
        p2wpkh_script_of(hash).skip(2) == hash,
{
    if is_p2wpkh_script(script) {
        assert(script =~= p2wpkh_script_of(script.skip(2)));
    }
    assert(p2wpkh_script_of(hash).skip(2) =~= hash);
}

/// An output can fund a channel exactly if the transaction has it and it pays to a witness key
/// hash. The input that spends it names that transaction and that place, and carries the output
/// and the transaction as they are.
pub proof fn law_input_is_what_it_spends(prevtx: TransactionView, vout: u32)
    ensures
        spendable(prevtx, vout) <==> {
            let script = prevtx.output[vout as int].script_pubkey;
            vout < prevtx.output.len() && script.len() == 22 && script[0] == 0 && script[1] == 20
        },
        ({
            let input = input_spending(prevtx, vout, txid_of(prevtx.unsigned()));
            &&& input.outpoint.txid == txid_of(prevtx.unsigned())
            &&& input.outpoint.vout == vout
            &&& input.output == prevtx.output[vout as int]
            &&& input.prevtx == prevtx
            &&& spendable(prevtx, vout) ==> input.valid()
        }),
{
}

/// An input is valid exactly if it spends an output of the transaction that it carries, as it
/// stands there, and that output pays to a witness key hash.
pub proof fn law_valid_inputs(input: FundingTxInputView)
    ensures
        input.valid() <==> {
            let vout = input.outpoint.vout;
            &&& vout < input.prevtx.output.len()
            &&& input.output == input.prevtx.output[vout as int]
            &&& input.output.script_pubkey.len() == 22
            &&& input.output.script_pubkey[0] == 0
            &&& input.output.script_pubkey[1] == 20
            &&& input.outpoint.txid == txid_of(input.prevtx.unsigned())
        },
{
}

/// The list of confirmed outputs is complete: it has every output that is confirmed, in order and
/// as often as the wallet has it, and no other.
pub proof fn law_confirmed_outputs_are_all_listed(utxos: Seq<LocalUtxoView>)
    ensures
        confirmed_of(utxos) == utxos.filter(tells_confirmed()),
        forall|k: int|
            0 <= k < utxos.len() && (#[trigger] utxos[k]).confirmed ==> confirmed_of(
                utxos,
            ).contains(utxos[k]),
    decreases utxos.len(),
{
    reveal(Seq::filter);
    if utxos.len() > 0 {
        let rest = utxos.drop_last();
        law_confirmed_outputs_are_all_listed(rest);
        assert forall|k: int| 0 <= k < utxos.len() && (
        #[trigger] utxos[k]).confirmed implies confirmed_of(utxos).contains(utxos[k]) by {
            if k < rest.len() {
                assert(rest[k] == utxos[k]);
                let j = choose|j: int|
                    0 <= j < confirmed_of(rest).len() && confirmed_of(rest)[j] == utxos[k];
                assert(confirmed_of(utxos)[j] == utxos[k]);
            } else {
                let last = confirmed_of(utxos).len() - 1;
                assert(confirmed_of(utxos)[last] == utxos[k]);
            }
        }
    }
}

/// Outputs are worth the sum of their amounts: one more output adds its amount.
pub proof fn law_outputs_add_up(utxos: Seq<LocalUtxoView>, next: LocalUtxoView)
    ensures
        sats_of(Seq::empty()) == 0,
        sats_of(utxos.push(next)) == sats_of(utxos) + next.txout.value_sats,
{
    assert(utxos.push(next).drop_last() =~= utxos);
}

/// A transaction is found exactly if one stands on record under its identifier, and what is found
/// is the first of them.
pub proof fn law_records_are_found(txs: Seq<WalletTxView>, txid: Txid)
    ensures
        find_tx(txs, txid) is None <==> forall|k: int|
            0 <= k < txs.len() ==> (#[trigger] txs[k]).txid != txid,
        find_tx(txs, txid) matches Some(tx) ==> exists|k: int|
            {
                &&& 0 <= k < txs.len()
                &&& #[trigger] txs[k] == (WalletTxView { txid, tx })
                &&& forall|j: int| 0 <= j < k ==> (#[trigger] txs[j]).txid != txid
            },
    decreases txs.len(),
{
    if txs.len() > 0 {
        let rest = txs.skip(1);
        if txs[0].txid == txid {
            assert(txs[0] == (WalletTxView { txid, tx: txs[0].tx }));
        } else {
            law_records_are_found(rest, txid);
            assert(forall|k: int| 0 <= k < rest.len() ==> #[trigger] rest[k] == txs[k + 1]);
            assert(forall|k: int| 1 <= k < txs.len() ==> #[trigger] txs[k] == rest[k - 1]);
            if find_tx(rest, txid) is Some {
                let found = WalletTxView { txid, tx: find_tx(rest, txid)->0 };
                let k = choose|k: int|
                    {
                        &&& 0 <= k < rest.len()
                        &&& #[trigger] rest[k] == found
                        &&& forall|j: int| 0 <= j < k ==> (#[trigger] rest[j]).txid != txid
                    };
                assert(txs[k + 1] == found);
                assert forall|j: int| 0 <= j < k + 1 implies (#[trigger] txs[j]).txid != txid by {
                    if j > 0 {
                        assert(txs[j] == rest[j - 1]);
                    }
                }
            }
        }
    }
}

/// An output that is added is the one at the named place of its transaction, and belongs to the
/// wallet from then on; nothing that the wallet had is lost.
pub proof fn law_added_output_belongs_to_the_wallet(
    wallet: WalletView,
    txid: Txid,
    prevtx: TransactionView,
    vout: u32,
    confirmed: bool,
    other: OutPoint,
)
    ensures
        ({
            let after = wallet.with_utxo(txid, prevtx, vout, confirmed);
            let added = after.utxos.last();
            &&& after.key_hash == wallet.key_hash
            &&& after.utxos.len() == wallet.utxos.len() + 1
            &&& after.utxos.drop_last() == wallet.utxos
            &&& added.outpoint == OutPoint { txid, vout }
            &&& added.txout == prevtx.output[vout as int]
            &&& added.confirmed == confirmed
            &&& after.txs == wallet.txs.push(WalletTxView { txid, tx: prevtx })
            &&& after.owns(other) <==> wallet.owns(other) || other == OutPoint { txid, vout }
        }),
{
    let after = wallet.with_utxo(txid, prevtx, vout, confirmed);
    let n = wallet.utxos.len() as int;
    assert(after.utxos.drop_last() =~= wallet.utxos);
    assert(after.utxos[n].outpoint == OutPoint { txid, vout });
    if wallet.owns(other) {
        let k = choose|k: int| 0 <= k < n && (#[trigger] wallet.utxos[k]).outpoint == other;
        assert(after.utxos[k].outpoint == other);
    }
    if after.owns(other) {
        let k = choose|k: int| 0 <= k < n + 1 && (#[trigger] after.utxos[k]).outpoint == other;
        if k < n {
            assert(wallet.utxos[k].outpoint == other);
        }
    }
}

/// The wallet owns an output exactly if it is among those that it can spend, and an input of a
/// transaction is its own exactly if it spends such an output.
pub proof fn law_wallet_owns_its_outputs(wallet: WalletView, tx: TransactionView, k: int)
    requires
        0 <= k < tx.input.len(),
    ensures
        wallet.owned_flags(tx).len() == tx.input.len(),
        wallet.owned_flags(tx)[k] <==> exists|j: int|
            0 <= j < wallet.utxos.len() && (#[trigger] wallet.utxos[j]).outpoint
                == tx.input[k].previous_output,
{
}

/// A selection takes the shortest run of confirmed outputs, from the first, that covers the amount,
/// the reserve and 5000 satoshis, or all of them. It succeeds exactly if what it takes can be used
/// and covers the amount.
pub proof fn law_selection_is_the_shortest_run(
    wallet: WalletView,
    funding_sats: u64,
    reserve_sats: u64,
)
    ensures
        ({
            let confirmed = wallet.utxos.filter(tells_confirmed());
            let selected = wallet.selected(funding_sats, reserve_sats);
            let n = selected.len() as int;
            let target = funding_sats + reserve_sats + 5_000;
            &&& n <= confirmed.len()
            &&& selected == confirmed.take(n)
            &&& n < confirmed.len() ==> sats_of(selected) >= target
            &&& forall|m: int| 0 <= m < n ==> sats_of(#[trigger] confirmed.take(m)) < target
            &&& wallet.can_select(funding_sats, reserve_sats) <==> {
                &&& sats_of(selected) >= funding_sats
                &&& forall|k: int| 0 <= k < n ==> wallet.usable(#[trigger] selected[k])
            }
        }),
{
    let confirmed = wallet.utxos.filter(tells_confirmed());
    law_confirmed_outputs_are_all_listed(wallet.utxos);
    lemma_needed_from(confirmed, funding_sats + reserve_sats + 5_000, 0);
    let selected = wallet.selected(funding_sats, reserve_sats);
    assert(selected =~= confirmed.take(selected.len() as int));
}

/// A selection fails only if all confirmed outputs together do not cover the amount, or if one that
/// it takes cannot be used.
pub proof fn law_selection_fails_for_cause(
    wallet: WalletView,
    funding_sats: u64,
    reserve_sats: u64,
)
    requires
        !wallet.can_select(funding_sats, reserve_sats),
    ensures
        ({
            let confirmed = wallet.utxos.filter(tells_confirmed());
            let selected = wallet.selected(funding_sats, reserve_sats);
            ||| sats_of(confirmed) < funding_sats
            ||| exists|k: int| 0 <= k < selected.len() && !wallet.usable(#[trigger] selected[k])
        }),
{
    let confirmed = wallet.utxos.filter(tells_confirmed());
    law_selection_is_the_shortest_run(wallet, funding_sats, reserve_sats);
    let selected = wallet.selected(funding_sats, reserve_sats);
    if selected.len() == confirmed.len() {
        assert(selected =~= confirmed);
    }
}

/// An output of the wallet can be used to fund a channel exactly if it pays to a witness key hash,
/// wherever it stands in its transaction. No two different transactions may stand on record under
/// one identifier.
pub proof fn law_key_hash_outputs_can_be_used(wallet: WalletView, k: int)
    requires
        wallet.inv(),
        wallet.one_tx_per_txid(),
        0 <= k < wallet.utxos.len(),
    ensures
        ({
            let script = wallet.utxos[k].txout.script_pubkey;
            wallet.usable(wallet.utxos[k]) <==> script.len() == 22 && script[0] == 0 && script[1]
                == 20
        }),
{
    let utxo = wallet.utxos[k];
    let txid = utxo.outpoint.txid;
    assert(wallet.is_on_record(utxo));
    let j = choose|j: int| 0 <= j < wallet.txs.len() && shows(#[trigger] wallet.txs[j], utxo);
    law_records_are_found(wallet.txs, txid);
    assert(wallet.txs[j].txid == txid);
    assert(find_tx(wallet.txs, txid) is Some);
    let tx = find_tx(wallet.txs, txid)->0;
    lemma_find_tx(wallet.txs, txid);
    let i = choose|i: int|
        0 <= i < wallet.txs.len() && #[trigger] wallet.txs[i] == (WalletTxView { txid, tx });
    assert(wallet.txs[i].tx.unsigned() == wallet.txs[j].tx.unsigned());
    assert(tx.unsigned().output == tx.output);
    assert(wallet.txs[j].tx.unsigned().output == wallet.txs[j].tx.output);
}

/// The inputs that a selection gives spend the outputs that it takes, one for one and in order:
/// each names its output, has its amount and script, and can fund a channel. No two different
/// transactions may stand on record under one identifier.
pub proof fn law_selected_inputs_spend_what_was_selected(
    wallet: WalletView,
    funding_sats: u64,
    reserve_sats: u64,
)
    requires
        wallet.inv(),
        wallet.one_tx_per_txid(),
        wallet.can_select(funding_sats, reserve_sats),
    ensures
        ({
            let selected = wallet.selected(funding_sats, reserve_sats);
            let inputs = wallet.selected_inputs(funding_sats, reserve_sats);
            &&& inputs.len() == selected.len()
            &&& forall|k: int|
                0 <= k < inputs.len() ==> {
                    &&& (#[trigger] inputs[k]).outpoint == selected[k].outpoint
                    &&& inputs[k].output == selected[k].txout
                    &&& inputs[k].valid()
                }
        }),
{
    let confirmed = confirmed_of(wallet.utxos);
    let selected = wallet.selected(funding_sats, reserve_sats);
    let inputs = wallet.selected_inputs(funding_sats, reserve_sats);
    lemma_needed_from(confirmed, wallet.selection_target(funding_sats, reserve_sats), 0);
    lemma_confirmed_are_listed(wallet.utxos);
    assert forall|k: int| 0 <= k < inputs.len() implies {
        &&& (#[trigger] inputs[k]).outpoint == selected[k].outpoint
        &&& inputs[k].output == selected[k].txout
        &&& inputs[k].valid()
    } by {
        assert(selected[k] == confirmed[k]);
        let j = choose|j: int| 0 <= j < wallet.utxos.len() && wallet.utxos[j] == confirmed[k];
        assert(wallet.is_on_record(wallet.utxos[j]));
        assert(wallet.usable(selected[k]));
        lemma_input_for_amount(wallet, selected[k]);
        lemma_find_tx(wallet.txs, selected[k].outpoint.txid);
    }
}

/// Sums of amounts grow with the number of outputs.
proof fn lemma_sats_of_prefix(utxos: Seq<LocalUtxoView>, n: int)
    requires
        0 <= n <= utxos.len(),
    ensures
        0 <= sats_of(utxos.take(n)) <= sats_of(utxos),
    decreases utxos.len(),
{
    if n == utxos.len() {
        assert(utxos.take(n) =~= utxos);
        if n > 0 {
            lemma_sats_of_prefix(utxos.drop_last(), n - 1);
        }
    } else {
        lemma_sats_of_prefix(utxos.drop_last(), n);
        assert(utxos.drop_last().take(n) =~= utxos.take(n));
    }
}

/// 64 bits are wide enough for a selection if they are for its target and for all confirmed outputs
/// together; they are not if the target is too large.
pub proof fn law_ordinary_amounts_are_in_range(
    wallet: WalletView,
    funding_sats: u64,
    reserve_sats: u64,
)
    ensures
        ({
            let confirmed = wallet.utxos.filter(tells_confirmed());
            let target = funding_sats + reserve_sats + 5_000;
            &&& target <= u64::MAX && sats_of(confirmed) <= u64::MAX ==> wallet.selection_fits(
                funding_sats,
                reserve_sats,
            )
            &&& target > u64::MAX ==> !wallet.selection_fits(funding_sats, reserve_sats)
        }),
{
    let confirmed = wallet.utxos.filter(tells_confirmed());
    let selected = wallet.selected(funding_sats, reserve_sats);
    law_selection_is_the_shortest_run(wallet, funding_sats, reserve_sats);
    if sats_of(confirmed) <= u64::MAX {
        assert forall|n: int| 0 <= n <= selected.len() implies sats_of(#[trigger] selected.take(n))
            <= u64::MAX by {
            assert(selected.take(n) =~= confirmed.take(n));
            lemma_sats_of_prefix(confirmed, n);
        }
    }
}

} // verus!
