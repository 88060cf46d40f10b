//! The wallet: coin selection and signing.

use dual_funding::errors::Error;
use dual_funding::funding::{make_single_output_tx, total_value};
use dual_funding::ids::{OutPoint, Txid};
use dual_funding::tx::{Transaction, TxIn, TxOut};
use dual_funding::wallet::{Wallet, FEE_BUFFER_SATS};

fn payment(wallet: &Wallet, value_sats: u64) -> Transaction {
    make_single_output_tx(TxOut { value_sats, script_pubkey: wallet.get_change_script() })
}

fn wallet_with(amounts: &[u64]) -> Wallet {
    let mut wallet = Wallet::new([1; 20]);
    for amount in amounts {
        let tx = payment(&wallet, *amount);
        wallet.add_utxo(tx, 0);
    }
    wallet
}

fn amounts(wallet: &Wallet, funding: u64, reserve: u64) -> Result<Vec<u64>, Error> {
    assert!(wallet.selection_in_range(funding, reserve));
    let inputs = wallet.select_funding_inputs(funding, reserve)?;
    Ok(inputs.iter().map(|i| i.value_sats()).collect())
}

#[test]
fn change_script_pays_to_the_wallet_key() {
    let mut expected = vec![0, 20];
    expected.extend_from_slice(&[9; 20]);
    assert_eq!(Wallet::new([9; 20]).get_change_script(), expected);
}

#[test]
fn selection_takes_outputs_until_the_target_is_reached() {
    assert_eq!(FEE_BUFFER_SATS, 5_000);
    let wallet = wallet_with(&[40_000, 30_000, 20_000, 10_000]);
    // The target is the amount, the reserve and the fee buffer.
    assert_eq!(amounts(&wallet, 35_000, 0), Ok(vec![40_000]));
    assert_eq!(amounts(&wallet, 35_001, 0), Ok(vec![40_000, 30_000]));
    assert_eq!(amounts(&wallet, 35_000, 1), Ok(vec![40_000, 30_000]));
    assert_eq!(amounts(&wallet, 60_000, 5_001), Ok(vec![40_000, 30_000, 20_000]));
    assert_eq!(amounts(&wallet, 0, 0), Ok(vec![40_000]));
}

#[test]
fn selection_without_room_for_fees_still_covers_the_amount() {
    // All outputs are taken, and they cover the amount, though not the target.
    let wallet = wallet_with(&[40_000, 30_000]);
    assert_eq!(amounts(&wallet, 70_000, 10_000), Ok(vec![40_000, 30_000]));
    assert_eq!(amounts(&wallet, 70_001, 0), Err(Error::InsufficientFunds));
}

#[test]
fn empty_wallet_covers_nothing_but_zero() {
    let wallet = wallet_with(&[]);
    assert_eq!(amounts(&wallet, 0, 0), Ok(vec![]));
    assert_eq!(amounts(&wallet, 1, 0), Err(Error::InsufficientFunds));
}

#[test]
fn selection_skips_unconfirmed_outputs() {
    let mut wallet = wallet_with(&[10_000]);
    let unconfirmed = payment(&wallet, 90_000);
    let txid = unconfirmed.compute_txid();
    wallet.register_utxo(txid, unconfirmed, 0, false);
    let confirmed = payment(&wallet, 20_000);
    wallet.add_utxo(confirmed, 0);
    assert_eq!(wallet.list_confirmed_utxos().len(), 2);
    assert_eq!(amounts(&wallet, 12_000, 0), Ok(vec![10_000, 20_000]));
    assert_eq!(amounts(&wallet, 50_000, 0), Err(Error::InsufficientFunds));
    assert!(wallet.owns(&OutPoint { txid, vout: 0 }));
}

#[test]
fn selection_fails_on_an_output_that_cannot_fund() {
    // The second output does not pay to a key hash. It matters only if it is reached.
    let mut wallet = wallet_with(&[10_000]);
    let foreign = make_single_output_tx(TxOut { value_sats: 50_000, script_pubkey: vec![0x51] });
    wallet.add_utxo(foreign, 0);
    assert_eq!(amounts(&wallet, 5_000, 0), Ok(vec![10_000]));
    assert_eq!(amounts(&wallet, 5_001, 0), Err(Error::InsufficientFunds));
}

#[test]
fn selected_inputs_carry_the_transactions_on_record() {
    let wallet = wallet_with(&[40_000, 30_000]);
    let inputs = wallet.select_funding_inputs(50_000, 0).unwrap();
    assert_eq!(inputs.len(), 2);
    assert_eq!(total_value(&inputs), 70_000);
    for input in &inputs {
        let outpoint = input.outpoint();
        assert!(wallet.owns(&outpoint));
        assert_eq!(outpoint.txid, input.prevtx().compute_txid());
        let on_record = wallet.get_tx(&outpoint.txid).unwrap();
        assert!(on_record.same_unsigned(input.prevtx()));
    }
    assert!(wallet.get_tx(&Txid { bytes: [0; 32] }).is_none());
}

#[test]
fn range_of_amounts_is_known_beforehand() {
    // What is not taken does not count.
    let wallet = wallet_with(&[u64::MAX, 1]);
    assert!(wallet.selection_in_range(1, 0));
    let wallet = wallet_with(&[1, u64::MAX]);
    assert!(!wallet.selection_in_range(1, 0));
    // Nor does what lies behind an output that cannot be used.
    let mut wallet = wallet_with(&[1]);
    wallet.add_utxo(make_single_output_tx(TxOut { value_sats: 2, script_pubkey: vec![] }), 0);
    let large = payment(&wallet, u64::MAX);
    wallet.add_utxo(large, 0);
    assert!(wallet.selection_in_range(1, 0));
    let wallet = wallet_with(&[u64::MAX]);
    assert!(wallet.selection_in_range(1, 0));
    assert!(wallet.selection_in_range(u64::MAX - 5_000, 0));
    assert!(!wallet.selection_in_range(u64::MAX - 5_000, 1));
    assert!(!wallet.selection_in_range(u64::MAX, u64::MAX));
}

fn spend(outpoint: OutPoint) -> TxIn {
    TxIn { previous_output: outpoint, script_sig: vec![], sequence: 0xFFFF_FFFD, witness: vec![] }
}

#[test]
fn wallet_signs_its_own_inputs_only() {
    let wallet = wallet_with(&[40_000, 30_000]);
    let own: Vec<OutPoint> = wallet.list_confirmed_utxos().iter().map(|u| u.outpoint).collect();
    let foreign = OutPoint { txid: Txid { bytes: [7; 32] }, vout: 0 };
    let mut theirs = spend(foreign);
    theirs.witness = vec![vec![0xEE]];
    let tx = Transaction {
        version: 2,
        lock_time: 0,
        input: vec![spend(own[1]), theirs, spend(own[0])],
        output: vec![TxOut { value_sats: 60_000, script_pubkey: vec![] }],
    };
    assert_eq!(wallet.owned_inputs(&tx), vec![true, false, true]);

    let witnesses = vec![vec![vec![1]], vec![vec![2], vec![3]]];
    let signed = wallet.sign_owned_inputs(tx.clone(), &witnesses).unwrap();
    assert_eq!(signed.input[0].witness, witnesses[0]);
    assert_eq!(signed.input[1].witness, vec![vec![0xEE]]);
    assert_eq!(signed.input[2].witness, witnesses[1]);
    assert!(signed.same_unsigned(&tx));
    assert_eq!(signed.compute_txid(), tx.compute_txid());

    let too_few = wallet.sign_owned_inputs(tx.clone(), &vec![vec![vec![1]]]);
    assert_eq!(too_few.unwrap_err(), Error::OnchainTxSigningFailed);
    let too_many = wallet.sign_owned_inputs(tx, &vec![vec![vec![1]]; 3]);
    assert_eq!(too_many.unwrap_err(), Error::OnchainTxSigningFailed);
}
