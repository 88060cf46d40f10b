//! The on-chain wallet that funds channels.

use vstd::prelude::*;
use crate::bitcoin_calls::{compute_txid, is_p2wpkh, new_p2wpkh_script};
use crate::bitcoin_calls::{p2wpkh_script_of, txid_of};
use crate::errors::Error;
use crate::funding::{all_valid, input_spending, spendable, total_sats};
use crate::funding::{FundingTxInput, FundingTxInputView};
use crate::ids::{OutPoint, Txid};
use crate::tx::{Transaction, TransactionView, TxOut, TxOutView};
use crate::views::{group_view_all, view_all};
use crate::witness::{number_owned, put_witnesses, Witness};
use crate::witness::{count_owned, with_witnesses, witness_views};

verus! {

broadcast use group_view_all;

/// What is added to the amount to be funded, to leave room for fees.
pub const FEE_BUFFER_SATS: u64 = 5_000;

/// An output that the wallet can spend.
#[derive(Debug)]
pub struct LocalUtxo {
    pub outpoint: OutPoint,
    pub txout: TxOut,
    pub confirmed: bool,
}

/// What a [`LocalUtxo`] holds.
pub struct LocalUtxoView {
    pub outpoint: OutPoint,
    pub txout: TxOutView,
    pub confirmed: bool,
}

impl View for LocalUtxo {
    type V = LocalUtxoView;

    open spec fn view(&self) -> LocalUtxoView {
        LocalUtxoView {
            outpoint: self.outpoint,
            txout: self.txout@,
            confirmed: self.confirmed,
        }
    }
}

impl Clone for LocalUtxo {
    fn clone(&self) -> (r: Self)
        ensures
            r@ == self@,
    {
        LocalUtxo {
            outpoint: self.outpoint,
            txout: self.txout.clone(),
            confirmed: self.confirmed,
        }
    }
}

/// A transaction that the wallet has on record.
#[derive(Debug)]
pub struct WalletTx {
    pub txid: Txid,
    pub tx: Transaction,
}

/// What a [`WalletTx`] holds.
pub struct WalletTxView {
    pub txid: Txid,
    pub tx: TransactionView,
}

impl View for WalletTx {
    type V = WalletTxView;

    open spec fn view(&self) -> WalletTxView {
        WalletTxView { txid: self.txid, tx: self.tx@ }
    }
}

/// A wallet that holds one key.
#[derive(Debug)]
pub struct Wallet {
    key_hash: [u8; 20],
    utxos: Vec<LocalUtxo>,
    txs: Vec<WalletTx>,
}

/// What a [`Wallet`] holds: the hash of its key, the outputs that it can spend, and the
/// transactions that it has on record, each in the order in which they were added.
pub struct WalletView {
    pub key_hash: Seq<u8>,
    pub utxos: Seq<LocalUtxoView>,
    pub txs: Seq<WalletTxView>,
}

impl View for Wallet {
    type V = WalletView;

    closed spec fn view(&self) -> WalletView {
        WalletView {
            key_hash: self.key_hash@,
            utxos: view_all(self.utxos@),
            txs: view_all(self.txs@),
        }
    }
}

/// The first transaction of `txs` that is identified by `txid`.
pub open spec fn find_tx(txs: Seq<WalletTxView>, txid: Txid) -> Option<TransactionView>
    decreases txs.len(),
{
    if txs.len() == 0 {
        None
    } else if txs[0].txid == txid {
        Some(txs[0].tx)
    } else {
        find_tx(txs.skip(1), txid)
    }
}

/// Every transaction of `txs` stands under its own identifier.
pub open spec fn well_named(txs: Seq<WalletTxView>) -> bool {
    forall|k: int|
        0 <= k < txs.len() ==> (#[trigger] txs[k]).txid == txid_of(txs[k].tx.unsigned())
}

/// `record` is the transaction that `utxo` names, and has it as an output.
pub open spec fn shows(record: WalletTxView, utxo: LocalUtxoView) -> bool {
    &&& record.txid == utxo.outpoint.txid
    &&& utxo.outpoint.vout < record.tx.output.len()
    &&& record.tx.output[utxo.outpoint.vout as int] == utxo.txout
}

/// The confirmed ones of `utxos`, in order.
pub open spec fn confirmed_of(utxos: Seq<LocalUtxoView>) -> Seq<LocalUtxoView>
    decreases utxos.len(),
{
    if utxos.len() == 0 {
        Seq::empty()
    } else if utxos.last().confirmed {
        confirmed_of(utxos.drop_last()).push(utxos.last())
    } else {
        confirmed_of(utxos.drop_last())
    }
}

/// The sum of the amounts of `utxos`.
pub open spec fn sats_of(utxos: Seq<LocalUtxoView>) -> int
    decreases utxos.len(),
{
    if utxos.len() == 0 {
        0
    } else {
        sats_of(utxos.drop_last()) + utxos.last().txout.value_sats
    }
}

/// The least number of outputs, from `n` on, whose sum reaches `target`, or all of them if
/// no such sum does.
pub open spec fn needed_from(utxos: Seq<LocalUtxoView>, target: int, n: nat) -> nat
    decreases utxos.len() - n,
{
    if n >= utxos.len() || sats_of(utxos.take(n as int)) >= target {
        n
    } else {
        needed_from(utxos, target, n + 1)
    }
}

impl WalletView {
    /// The wallet can spend the output that `outpoint` names.
    pub open spec fn owns(self, outpoint: OutPoint) -> bool {
        exists|k: int| 0 <= k < self.utxos.len() && (#[trigger] self.utxos[k]).outpoint == outpoint
    }

    /// A transaction on record shows `utxo`.
    pub open spec fn is_on_record(self, utxo: LocalUtxoView) -> bool {
        exists|k: int| 0 <= k < self.txs.len() && shows(#[trigger] self.txs[k], utxo)
    }

    /// What holds of every wallet: every transaction on record stands under its own identifier,
    /// and every output that the wallet can spend is on record.
    pub open spec fn inv(self) -> bool {
        &&& well_named(self.txs)
        &&& forall|k: int|
            0 <= k < self.utxos.len() ==> self.is_on_record(#[trigger] self.utxos[k])
    }

    /// No two different transactions stand on record under one identifier, as far as witnesses
    /// do not count.
    pub open spec fn one_tx_per_txid(self) -> bool {
        forall|i: int, j: int|
            0 <= i < self.txs.len() && 0 <= j < self.txs.len() && (#[trigger] self.txs[i]).txid == (
            #[trigger] self.txs[j]).txid ==> self.txs[i].tx.unsigned()
                == self.txs[j].tx.unsigned()
    }

    /// The amount that a selection for `funding_sats` aims at.
    pub open spec fn selection_target(self, funding_sats: u64, reserve_sats: u64) -> int {
        funding_sats + reserve_sats + FEE_BUFFER_SATS
    }

    /// The outputs that a selection for `funding_sats` takes: the shortest run of confirmed
    /// outputs, from the first, that reaches the target.
    pub open spec fn selected(self, funding_sats: u64, reserve_sats: u64) -> Seq<LocalUtxoView> {
        let confirmed = confirmed_of(self.utxos);
        let target = self.selection_target(funding_sats, reserve_sats);
        confirmed.take(needed_from(confirmed, target, 0) as int)
    }

    /// The wallet has the transaction of `utxo` on record, and it shows a witness key hash
    /// output where `utxo` says.
    pub open spec fn usable(self, utxo: LocalUtxoView) -> bool {
        find_tx(self.txs, utxo.outpoint.txid) matches Some(tx) && spendable(tx, utxo.outpoint.vout)
    }

    /// The amounts that a selection adds up stay within 64 bits: the target, and the outputs
    /// that it takes, as far as it gets.
    pub open spec fn selection_fits(self, funding_sats: u64, reserve_sats: u64) -> bool {
        let selected = self.selected(funding_sats, reserve_sats);
        &&& self.selection_target(funding_sats, reserve_sats) <= u64::MAX
        &&& forall|n: int|
            0 <= n <= selected.len() && (forall|k: int|
                0 <= k < n ==> #[trigger] self.usable(selected[k])) ==> sats_of(
                #[trigger] selected.take(n),
            ) <= u64::MAX
    }

    /// A selection for `funding_sats` succeeds: every output that it takes can be used, and
    /// together they cover the amount.
    pub open spec fn can_select(self, funding_sats: u64, reserve_sats: u64) -> bool {
        let selected = self.selected(funding_sats, reserve_sats);
        &&& sats_of(selected) >= funding_sats
        &&& forall|k: int| 0 <= k < selected.len() ==> #[trigger] self.usable(selected[k])
    }

    /// The inputs that a selection for `funding_sats` gives, in order.
    pub open spec fn selected_inputs(self, funding_sats: u64, reserve_sats: u64) -> Seq<
        FundingTxInputView,
    > {
        let selected = self.selected(funding_sats, reserve_sats);
        Seq::new(selected.len(), |k: int| self.input_for(selected[k]))
    }

    /// The input that spends `utxo`.
    pub open spec fn input_for(self, utxo: LocalUtxoView) -> FundingTxInputView {
        let tx = find_tx(self.txs, utxo.outpoint.txid)->0;
        input_spending(tx, utxo.outpoint.vout, txid_of(tx.unsigned()))
    }

    /// Which of the inputs of `tx` spend outputs of the wallet.
    pub open spec fn owned_flags(self, tx: TransactionView) -> Seq<bool> {
        Seq::new(tx.input.len(), |k: int| self.owns(tx.input[k].previous_output))
    }

    /// The wallet after output `vout` of `prevtx`, identified by `txid`, was added.
    pub open spec fn with_utxo(
        self,
        txid: Txid,
        prevtx: TransactionView,
        vout: u32,
        confirmed: bool,
    ) -> WalletView {
        WalletView {
            utxos: self.utxos.push(
                LocalUtxoView {
                    outpoint: OutPoint { txid, vout },
                    txout: prevtx.output[vout as int],
                    confirmed,
                },
            ),
            txs: self.txs.push(WalletTxView { txid, tx: prevtx }),
            ..self
        }
    }
}

/// A selection takes no more outputs than there are; what it leaves behind was not needed,
/// and what it takes was.
pub proof fn lemma_needed_from(utxos: Seq<LocalUtxoView>, target: int, n: nat)
    requires
        n <= utxos.len(),
    ensures
        n <= needed_from(utxos, target, n) <= utxos.len(),
        needed_from(utxos, target, n) < utxos.len() ==> sats_of(
            utxos.take(needed_from(utxos, target, n) as int),
        ) >= target,
        forall|m: int|
            n <= m < needed_from(utxos, target, n) ==> sats_of(#[trigger] utxos.take(m)) < target,
    decreases utxos.len() - n,
{
    if !(n >= utxos.len() || sats_of(utxos.take(n as int)) >= target) {
        lemma_needed_from(utxos, target, n + 1);
    }
}

/// A transaction that is found stands on record under the identifier that was looked for.
pub proof fn lemma_find_tx(txs: Seq<WalletTxView>, txid: Txid)
    ensures
        find_tx(txs, txid) matches Some(tx) ==> exists|k: int|
            0 <= k < txs.len() && #[trigger] txs[k] == (WalletTxView { txid, tx }),
    decreases txs.len(),
{
    if txs.len() > 0 {
        let rest = txs.skip(1);
        if txs[0].txid == txid {
            assert(txs[0] == (WalletTxView { txid, tx: txs[0].tx }));
        } else {
            lemma_find_tx(rest, txid);
            if find_tx(rest, txid) is Some {
                let found = WalletTxView { txid, tx: find_tx(rest, txid)->0 };
                let k = choose|k: int| 0 <= k < rest.len() && #[trigger] rest[k] == found;
                assert(txs[k + 1] == found);
            }
        }
    }
}

/// Adding an output keeps what holds of every wallet.
pub proof fn lemma_with_utxo_inv(
    wallet: WalletView,
    txid: Txid,
    prevtx: TransactionView,
    vout: u32,
    confirmed: bool,
)
    requires
        wallet.inv(),
        vout < prevtx.output.len(),
        txid == txid_of(prevtx.unsigned()),
    ensures
        wallet.with_utxo(txid, prevtx, vout, confirmed).inv(),
{
    let after = wallet.with_utxo(txid, prevtx, vout, confirmed);
    let n = wallet.txs.len() as int;
    assert(forall|k: int| 0 <= k < n ==> #[trigger] after.txs[k] == wallet.txs[k]);
    assert forall|k: int| 0 <= k < after.utxos.len() implies after.is_on_record(
        #[trigger] after.utxos[k],
    ) by {
        if k < wallet.utxos.len() {
            assert(after.utxos[k] == wallet.utxos[k]);
            let j = choose|j: int| 0 <= j < n && shows(#[trigger] wallet.txs[j], wallet.utxos[k]);
            assert(shows(after.txs[j], after.utxos[k]));
        } else {
            assert(shows(after.txs[n], after.utxos[k]));
        }
    }
}

/// A selection takes outputs of the wallet.
proof fn lemma_selected_are_owned(wallet: WalletView, funding_sats: u64, reserve_sats: u64)
    ensures
        forall|k: int|
            0 <= k < wallet.selected(funding_sats, reserve_sats).len() ==> wallet.owns(
                (#[trigger] wallet.selected(funding_sats, reserve_sats)[k]).outpoint,
            ),
{
    let confirmed = confirmed_of(wallet.utxos);
    let selected = wallet.selected(funding_sats, reserve_sats);
    lemma_needed_from(confirmed, wallet.selection_target(funding_sats, reserve_sats), 0);
    lemma_confirmed_are_listed(wallet.utxos);
    assert forall|k: int| 0 <= k < selected.len() implies wallet.owns(
        (#[trigger] selected[k]).outpoint,
    ) by {
        assert(selected[k] == confirmed[k]);
        let j = choose|j: int| 0 <= j < wallet.utxos.len() && wallet.utxos[j] == confirmed[k];
        assert(wallet.utxos[j].outpoint == selected[k].outpoint);
    }
}

/// The confirmed outputs are among all of them.
pub proof fn lemma_confirmed_are_listed(utxos: Seq<LocalUtxoView>)
    ensures
        forall|k: int|
            0 <= k < confirmed_of(utxos).len() ==> utxos.contains(
                #[trigger] confirmed_of(utxos)[k],
            ),
    decreases utxos.len(),
{
    if utxos.len() > 0 {
        let rest = utxos.drop_last();
        lemma_confirmed_are_listed(rest);
        assert forall|k: int| 0 <= k < confirmed_of(utxos).len() implies utxos.contains(
            #[trigger] confirmed_of(utxos)[k],
        ) by {
            if k < confirmed_of(rest).len() {
                assert(confirmed_of(utxos)[k] == confirmed_of(rest)[k]);
                let j = choose|j: int| 0 <= j < rest.len() && rest[j] == confirmed_of(rest)[k];
                assert(utxos[j] == confirmed_of(utxos)[k]);
            } else {
                assert(utxos[utxos.len() - 1] == confirmed_of(utxos)[k]);
            }
        }
    }
}

/// The inputs that a selection gives spend outputs of the wallet.
pub proof fn lemma_selected_inputs_are_owned(
    wallet: WalletView,
    funding_sats: u64,
    reserve_sats: u64,
)
    requires
        wallet.inv(),
        wallet.can_select(funding_sats, reserve_sats),
    ensures
        forall|k: int|
            0 <= k < wallet.selected_inputs(funding_sats, reserve_sats).len() ==> wallet.owns(
                (#[trigger] wallet.selected_inputs(funding_sats, reserve_sats)[k]).outpoint,
            ),
{
    let selected = wallet.selected(funding_sats, reserve_sats);
    let inputs = wallet.selected_inputs(funding_sats, reserve_sats);
    lemma_selected_are_owned(wallet, funding_sats, reserve_sats);
    assert forall|k: int| 0 <= k < inputs.len() implies wallet.owns(
        (#[trigger] inputs[k]).outpoint,
    ) by {
        assert(wallet.usable(selected[k]));
        lemma_find_tx(wallet.txs, selected[k].outpoint.txid);
        assert(inputs[k].outpoint == selected[k].outpoint);
    }
}

/// The amount of an output is the one that its record shows.
pub proof fn lemma_input_for_amount(wallet: WalletView, utxo: LocalUtxoView)
    requires
        wallet.one_tx_per_txid(),
        wallet.is_on_record(utxo),
        wallet.usable(utxo),
    ensures
        wallet.input_for(utxo).output == utxo.txout,
{
    let txid = utxo.outpoint.txid;
    let tx = find_tx(wallet.txs, txid)->0;
    lemma_find_tx(wallet.txs, txid);
    let i = choose|i: int|
        0 <= i < wallet.txs.len() && #[trigger] wallet.txs[i] == (WalletTxView { txid, tx });
    let j = choose|j: int| 0 <= j < wallet.txs.len() && shows(#[trigger] wallet.txs[j], utxo);
    assert(wallet.txs[i].tx.unsigned() == wallet.txs[j].tx.unsigned());
    assert(tx.unsigned().output == tx.output);
    assert(wallet.txs[j].tx.unsigned().output == wallet.txs[j].tx.output);
}

/// Inputs are worth what the outputs are that they spend.
proof fn lemma_inputs_worth(wallet: WalletView, utxos: Seq<LocalUtxoView>)
    requires
        forall|k: int|
            0 <= k < utxos.len() ==> wallet.input_for(#[trigger] utxos[k]).output
                == utxos[k].txout,
    ensures
        total_sats(Seq::new(utxos.len(), |k: int| wallet.input_for(utxos[k]))) == sats_of(utxos),
    decreases utxos.len(),
{
    let inputs = Seq::new(utxos.len(), |k: int| wallet.input_for(utxos[k]));
    if utxos.len() > 0 {
        let rest = utxos.drop_last();
        assert(forall|k: int| 0 <= k < rest.len() ==> #[trigger] rest[k] == utxos[k]);
        lemma_inputs_worth(wallet, rest);
        assert(inputs.drop_last() =~= Seq::new(
            rest.len(),
            |k: int| wallet.input_for(rest[k]),
        ));
        assert(inputs.last().output == utxos[utxos.len() - 1].txout);
    }
}

/// The inputs that a selection gives are worth what the outputs are that it takes.
pub proof fn lemma_selected_inputs_worth(
    wallet: WalletView,
    funding_sats: u64,
    reserve_sats: u64,
)
    requires
        wallet.inv(),
        wallet.one_tx_per_txid(),
        wallet.can_select(funding_sats, reserve_sats),
    ensures
        total_sats(wallet.selected_inputs(funding_sats, reserve_sats)) == sats_of(
            wallet.selected(funding_sats, reserve_sats),
        ),
{
    let confirmed = confirmed_of(wallet.utxos);
    let selected = wallet.selected(funding_sats, reserve_sats);
    lemma_needed_from(confirmed, wallet.selection_target(funding_sats, reserve_sats), 0);
    lemma_confirmed_are_listed(wallet.utxos);
    assert forall|k: int| 0 <= k < selected.len() implies wallet.input_for(
        #[trigger] selected[k],
    ).output == selected[k].txout by {
        assert(selected[k] == confirmed[k]);
        let j = choose|j: int| 0 <= j < wallet.utxos.len() && wallet.utxos[j] == confirmed[k];
        assert(wallet.is_on_record(wallet.utxos[j]));
        assert(wallet.usable(selected[k]));
        lemma_input_for_amount(wallet, selected[k]);
    }
    lemma_inputs_worth(wallet, selected);
    assert(wallet.selected_inputs(funding_sats, reserve_sats) =~= Seq::new(
        selected.len(),
        |k: int| wallet.input_for(selected[k]),
    ));
}

impl Wallet {
    /// What holds of every wallet.
    #[verifier::type_invariant]
    pub open spec fn wf(self) -> bool {
        self@.inv()
    }

    /// A wallet for the key with the hash `key_hash`, with nothing in it.
    pub fn new(key_hash: [u8; 20]) -> (w: Wallet)
        ensures
            w@ == (WalletView {
                key_hash: key_hash@,
                utxos: Seq::empty(),
                txs: Seq::empty(),
            }),
            w@.inv(),
    {
        Wallet { key_hash, utxos: Vec::new(), txs: Vec::new() }
    }

    /// The script that pays to the wallet's key.
    pub fn get_change_script(&self) -> (script: Vec<u8>)
        ensures
            script@ == p2wpkh_script_of(self@.key_hash),
            self@.key_hash.len() == 20,
            script@.len() == 22,
            script@[0] == 0,
            script@[1] == 20,
            script@.skip(2) == self@.key_hash,
    {
        let script = new_p2wpkh_script(&self.key_hash);
        assert(script@.skip(2) =~= self@.key_hash);
        script
    }

    /// Adds output `vout` of `prevtx`, a confirmed transaction.
    pub fn add_utxo(&mut self, prevtx: Transaction, vout: u32)
        requires
            vout < prevtx@.output.len(),
        ensures
            final(self)@ == old(self)@.with_utxo(
                txid_of(prevtx@.unsigned()),
                prevtx@,
                vout,
                true,
            ),
    {
        let txid = compute_txid(&prevtx);
        self.register_utxo(txid, prevtx, vout, true);
    }

    /// Adds output `vout` of `prevtx`, a transaction whose identifier `txid` is known.
    pub fn register_utxo(&mut self, txid: Txid, prevtx: Transaction, vout: u32, confirmed: bool)
        requires
            vout < prevtx@.output.len(),
            txid == txid_of(prevtx@.unsigned()),
        ensures
            final(self)@ == old(self)@.with_utxo(txid, prevtx@, vout, confirmed),
    {
        let txout = prevtx.output[vout as usize].clone();
        let mut wallet = Wallet::new(self.key_hash);
        std::mem::swap(&mut wallet, self);
        proof {
            use_type_invariant(&wallet);
        }
        let ghost after = wallet@.with_utxo(txid, prevtx@, vout, confirmed);
        proof {
            lemma_with_utxo_inv(wallet@, txid, prevtx@, vout, confirmed);
        }
        let Wallet { key_hash, mut utxos, mut txs } = wallet;
        utxos.push(LocalUtxo { outpoint: OutPoint { txid, vout }, txout, confirmed });
        txs.push(WalletTx { txid, tx: prevtx });
        assert(view_all(utxos@) == after.utxos);
        assert(view_all(txs@) == after.txs);
        *self = Wallet { key_hash, utxos, txs };
    }

    /// Whether the wallet can spend the output that `outpoint` names.
    pub fn owns(&self, outpoint: &OutPoint) -> (r: bool)
        ensures
            r == self@.owns(*outpoint),
    {
        let mut k: usize = 0;
        while k < self.utxos.len()
            invariant
                k <= self.utxos.len(),
                forall|j: int| 0 <= j < k ==> (#[trigger] self@.utxos[j]).outpoint != *outpoint,
            decreases self.utxos.len() - k,
        {
            assert(self@.utxos[k as int] == self.utxos[k as int]@);
            if self.utxos[k].outpoint == *outpoint {
                return true;
            }
            k = k + 1;
        }
        false
    }

    /// The transaction on record that is identified by `txid`.
    pub fn get_tx(&self, txid: &Txid) -> (r: Option<&Transaction>)
        ensures
            match r {
                Some(tx) => find_tx(self@.txs, *txid) == Some(tx@),
                None => find_tx(self@.txs, *txid) is None,
            },
    {
        let mut k: usize = 0;
        assert(self@.txs.skip(0) =~= self@.txs);
        while k < self.txs.len()
            invariant
                k <= self.txs.len(),
                find_tx(self@.txs, *txid) == find_tx(self@.txs.skip(k as int), *txid),
            decreases self.txs.len() - k,
        {
            assert(self@.txs.skip(k as int)[0] == self.txs[k as int]@);
            if self.txs[k].txid == *txid {
                return Some(&self.txs[k].tx);
            }
            assert(self@.txs.skip(k as int).skip(1) =~= self@.txs.skip(k + 1));
            k = k + 1;
        }
        None
    }

    /// The confirmed outputs that the wallet can spend, in the order in which they were
    /// added.
    pub fn list_confirmed_utxos(&self) -> (r: Vec<LocalUtxo>)
        ensures
            view_all(r@) == confirmed_of(self@.utxos),
    {
        let ghost all = self@.utxos;
        let mut r: Vec<LocalUtxo> = Vec::new();
        let mut k: usize = 0;
        assert(all.take(0) =~= Seq::<LocalUtxoView>::empty());
        while k < self.utxos.len()
            invariant
                k <= self.utxos.len(),
                all == self@.utxos,
                view_all(r@) == confirmed_of(all.take(k as int)),
            decreases self.utxos.len() - k,
        {
            assert(all.take(k + 1).drop_last() =~= all.take(k as int));
            assert(all.take(k + 1).last() == self.utxos[k as int]@);
            if self.utxos[k].confirmed {
                r.push(self.utxos[k].clone());
            }
            k = k + 1;
        }
        assert(all.take(k as int) =~= all);
        r
    }

    /// Whether `utxo` can be used to fund a channel.
    fn is_usable(&self, utxo: &LocalUtxo) -> (r: bool)
        ensures
            r == self@.usable(utxo@),
    {
        match self.get_tx(&utxo.outpoint.txid) {
            Some(tx) => {
                let k: usize = utxo.outpoint.vout as usize;
                k < tx.output.len() && is_p2wpkh(&tx.output[k].script_pubkey)
            },
            None => false,
        }
    }

    /// Whether amounts in 64 bits are wide enough for a selection: for its target, and for the
    /// outputs that it takes, as far as it gets.
    pub fn selection_in_range(
        &self,
        funding_amount_sats: u64,
        cur_anchor_reserve_sats: u64,
    ) -> (r: bool)
        ensures
            r == self@.selection_fits(funding_amount_sats, cur_anchor_reserve_sats),
    {
        let utxos = self.list_confirmed_utxos();
        let wide_target: u128 = funding_amount_sats as u128 + cur_anchor_reserve_sats as u128
            + FEE_BUFFER_SATS as u128;
        if wide_target > u64::MAX as u128 {
            return false;
        }
        let target: u64 = wide_target as u64;
        let mut total: u64 = 0;
        let mut k: usize = 0;
        let ghost all = view_all(utxos@);
        let ghost count = needed_from(all, target as int, 0);
        let ghost selected = all.take(count as int);
        proof {
            lemma_needed_from(all, target as int, 0);
            assert(all.take(0) =~= Seq::<LocalUtxoView>::empty());
            assert(selected.take(0) =~= all.take(0));
        }
        while k < utxos.len() && total < target
            invariant
                k <= count <= utxos.len(),
                all == view_all(utxos@),
                all == confirmed_of(self@.utxos),
                target == self@.selection_target(funding_amount_sats, cur_anchor_reserve_sats),
                count < all.len() ==> sats_of(all.take(count as int)) >= target,
                forall|m: int| 0 <= m < count ==> sats_of(#[trigger] all.take(m)) < target,
                selected == all.take(count as int),
                selected == self@.selected(funding_amount_sats, cur_anchor_reserve_sats),
                total == sats_of(selected.take(k as int)),
                forall|j: int| 0 <= j < k ==> #[trigger] self@.usable(selected[j]),
                forall|n: int| 0 <= n <= k ==> sats_of(#[trigger] selected.take(n)) <= u64::MAX,
            decreases utxos.len() - k,
        {
            assert(selected.take(k as int) =~= all.take(k as int));
            assert(k < count);
            assert(selected[k as int] == utxos[k as int]@);
            if !self.is_usable(&utxos[k]) {
                return true;
            }
            proof {
                let next = selected.take(k + 1);
                assert(next.drop_last() =~= selected.take(k as int));
                assert(next.last() == utxos[k as int]@);
                assert(sats_of(next) == total + utxos[k as int].txout.value_sats);
            }
            match total.checked_add(utxos[k].txout.value_sats) {
                Some(sum) => {
                    total = sum;
                },
                None => {
                    return false;
                },
            }
            k = k + 1;
        }
        assert(k == count) by {
            assert(selected.take(k as int) =~= all.take(k as int));
            if k < count {
                assert(sats_of(all.take(k as int)) < target);
            }
        }
        true
    }

    /// Selects confirmed outputs to fund a channel with `funding_amount_sats`, on top of what
    /// is kept back for anchor channels. Outputs are taken in order until they cover the
    /// amount, the reserve and a buffer for fees, or until none is left.
    pub fn select_funding_inputs(
        &self,
        funding_amount_sats: u64,
        cur_anchor_reserve_sats: u64,
    ) -> (r: Result<Vec<FundingTxInput>, Error>)
        requires
            self@.selection_fits(funding_amount_sats, cur_anchor_reserve_sats),
        ensures
            match r {
                Ok(inputs) => {
                    &&& self@.can_select(funding_amount_sats, cur_anchor_reserve_sats)
                    &&& view_all(inputs@) == self@.selected_inputs(
                        funding_amount_sats,
                        cur_anchor_reserve_sats,
                    )
                    &&& all_valid(view_all(inputs@))
                    &&& forall|k: int|
                        0 <= k < inputs.len() ==> self@.owns((#[trigger] inputs[k])@.outpoint)
                },
                Err(e) => {
                    &&& e == Error::InsufficientFunds
                    &&& !self@.can_select(funding_amount_sats, cur_anchor_reserve_sats)
                },
            },
    {
        let utxos = self.list_confirmed_utxos();
        let target: u64 = funding_amount_sats + cur_anchor_reserve_sats + FEE_BUFFER_SATS;
        let mut inputs: Vec<FundingTxInput> = Vec::new();
        let mut total: u64 = 0;
        let mut k: usize = 0;
        let ghost all = view_all(utxos@);
        let ghost count = needed_from(all, target as int, 0);
        let ghost selected = all.take(count as int);
        let ghost chosen = self@.selected_inputs(funding_amount_sats, cur_anchor_reserve_sats);
        proof {
            use_type_invariant(self);
            lemma_needed_from(all, target as int, 0);
            assert(all.take(0) =~= Seq::<LocalUtxoView>::empty());
            assert(view_all(inputs@) =~= chosen.take(0));
        }
        while k < utxos.len() && total < target
            invariant
                k <= count <= utxos.len(),
                all == view_all(utxos@),
                all == confirmed_of(self@.utxos),
                target == self@.selection_target(funding_amount_sats, cur_anchor_reserve_sats),
                count == needed_from(all, target as int, 0),
                count < all.len() ==> sats_of(all.take(count as int)) >= target,
                forall|m: int| 0 <= m < count ==> sats_of(#[trigger] all.take(m)) < target,
                selected == all.take(count as int),
                selected == self@.selected(funding_amount_sats, cur_anchor_reserve_sats),
                total == sats_of(all.take(k as int)),
                self@.selection_fits(funding_amount_sats, cur_anchor_reserve_sats),
                chosen == self@.selected_inputs(funding_amount_sats, cur_anchor_reserve_sats),
                view_all(inputs@) == chosen.take(k as int),
                all_valid(view_all(inputs@)),
                forall|j: int| 0 <= j < k ==> #[trigger] self@.usable(selected[j]),
            decreases utxos.len() - k,
        {
            assert(k < count);
            assert(selected[k as int] == utxos[k as int]@);
            let prevtx = match self.get_tx(&utxos[k].outpoint.txid) {
                Some(tx) => tx.clone(),
                None => {
                    assert(!self@.usable(selected[k as int]));
                    return Err(Error::InsufficientFunds);
                },
            };
            let input = match FundingTxInput::new_p2wpkh(prevtx, utxos[k].outpoint.vout) {
                Ok(input) => input,
                Err(_) => {
                    assert(!self@.usable(selected[k as int]));
                    return Err(Error::InsufficientFunds);
                },
            };
            assert(self@.usable(selected[k as int]));
            proof {
                assert(selected.take(k + 1) =~= all.take(k + 1));
                assert(all.take(k + 1).drop_last() =~= all.take(k as int));
                assert(all.take(k + 1).last() == utxos[k as int]@);
                assert(sats_of(selected.take(k + 1)) <= u64::MAX);
            }
            total = total + utxos[k].txout.value_sats;
            assert(input@ == self@.input_for(selected[k as int]));
            let ghost before = view_all(inputs@);
            inputs.push(input);
            proof {
                let after = view_all(inputs@);
                assert(after =~= chosen.take(k + 1));
                assert forall|j: int| 0 <= j < after.len() implies (#[trigger] after[j]).valid() by {
                    if j < k {
                        assert(after[j] == before[j]);
                    }
                }
            }
            k = k + 1;
        }
        assert(k == count) by {
            if k < count {
                assert(sats_of(all.take(k as int)) < target);
            }
        }
        if total < funding_amount_sats {
            return Err(Error::InsufficientFunds);
        }
        proof {
            assert(chosen.take(k as int) =~= chosen);
            lemma_selected_inputs_are_owned(self@, funding_amount_sats, cur_anchor_reserve_sats);
            assert forall|j: int| 0 <= j < inputs.len() implies self@.owns(
                (#[trigger] inputs[j])@.outpoint,
            ) by {
                assert(chosen[j] == view_all(inputs@)[j]);
            }
        }
        Ok(inputs)
    }

    /// Which of the inputs of `tx` spend outputs of the wallet.
    pub fn owned_inputs(&self, tx: &Transaction) -> (r: Vec<bool>)
        ensures
            r@ == self@.owned_flags(tx@),
    {
        let mut r: Vec<bool> = Vec::new();
        let mut k: usize = 0;
        while k < tx.input.len()
            invariant
                k <= tx.input.len(),
                r.len() == k,
                forall|j: int| 0 <= j < k ==> r[j] == self@.owned_flags(tx@)[j],
            decreases tx.input.len() - k,
        {
            assert(tx@.input[k as int] == tx.input[k as int]@);
            r.push(self.owns(&tx.input[k].previous_output));
            k = k + 1;
        }
        assert(r@ =~= self@.owned_flags(tx@));
        r
    }

    /// Signs the inputs of `tx` that the wallet owns and skips the others. `witnesses` are
    /// the ones that the holder of the key made for the wallet's inputs, in order.
    pub fn sign_owned_inputs(&self, tx: Transaction, witnesses: &Vec<Witness>) -> (r: Result<
        Transaction,
        Error,
    >)
        ensures
            ({
                let owned = self@.owned_flags(tx@);
                match r {
                    Ok(signed) => {
                        &&& witnesses.len() == count_owned(owned, true)
                        &&& signed@ == (TransactionView {
                            input: with_witnesses(
                                tx@.input,
                                owned,
                                true,
                                witness_views(witnesses@),
                            ),
                            ..tx@
                        })
                    },
                    Err(e) => {
                        &&& e == Error::OnchainTxSigningFailed
                        &&& witnesses.len() != count_owned(owned, true)
                    },
                }
            }),
    {
        let owned = self.owned_inputs(&tx);
        if witnesses.len() != number_owned(&owned, true) {
            return Err(Error::OnchainTxSigningFailed);
        }
        let input = put_witnesses(&tx.input, &owned, true, witnesses);
        Ok(Transaction { version: tx.version, lock_time: tx.lock_time, input, output: tx.output })
    }
}

} // verus!
