//! Funding inputs, transactions and their identifiers.

use bitcoin::hashes::Hash as HashBytes;
use dual_funding::funding::{
    create_dummy_funding_input, make_single_output_tx, total_value, FundingTxInput,
};
use dual_funding::ids::{OutPoint, Txid};
use dual_funding::tx::{Transaction, TxIn, TxOut};

fn p2wpkh(hash: [u8; 20]) -> Vec<u8> {
    let mut script = vec![0, 20];
    script.extend_from_slice(&hash);
    script
}

fn output(value_sats: u64, script_pubkey: Vec<u8>) -> TxOut {
    TxOut { value_sats, script_pubkey }
}

#[test]
fn dummy_input_pays_to_the_hash_of_zeros() {
    let input = create_dummy_funding_input(2_000);
    assert_eq!(input.value_sats(), 2_000);
    assert_eq!(*input.script_pubkey(), p2wpkh([0; 20]));
    assert_eq!(input.outpoint().vout, 0);
    let prevtx = input.into_prevtx();
    assert_eq!(prevtx.version, 2);
    assert_eq!(prevtx.lock_time, 0);
    assert!(prevtx.input.is_empty());
    assert_eq!(prevtx.output.len(), 1);
    assert_eq!(prevtx.output[0].value_sats, 2_000);
}

#[test]
fn identifier_of_a_transaction_without_inputs() {
    let input = create_dummy_funding_input(2_000);
    let expected = bitcoin::Transaction {
        version: bitcoin::transaction::Version::TWO,
        lock_time: bitcoin::absolute::LockTime::ZERO,
        input: vec![],
        output: vec![bitcoin::TxOut {
            value: bitcoin::Amount::from_sat(2_000),
            script_pubkey: bitcoin::ScriptBuf::new_p2wpkh(&bitcoin::WPubkeyHash::all_zeros()),
        }],
    };
    assert_eq!(input.outpoint().txid.bytes, expected.compute_txid().to_byte_array());
    assert_eq!(input.prevtx().compute_txid().bytes, expected.compute_txid().to_byte_array());
}

#[test]
fn identifier_depends_on_everything_but_the_witnesses() {
    let tx = Transaction {
        version: 2,
        lock_time: 7,
        input: vec![TxIn {
            previous_output: OutPoint { txid: Txid { bytes: [3; 32] }, vout: 5 },
            script_sig: vec![0x51, 0x52],
            sequence: 0xFFFF_FFFD,
            witness: vec![vec![1, 2, 3]],
        }],
        output: vec![output(9, vec![0x51])],
    };
    let expected = bitcoin::Transaction {
        version: bitcoin::transaction::Version(2),
        lock_time: bitcoin::absolute::LockTime::from_consensus(7),
        input: vec![bitcoin::TxIn {
            previous_output: bitcoin::OutPoint::new(bitcoin::Txid::from_byte_array([3; 32]), 5),
            script_sig: bitcoin::ScriptBuf::from_bytes(vec![0x51, 0x52]),
            sequence: bitcoin::Sequence(0xFFFF_FFFD),
            witness: bitcoin::Witness::from_slice(&[vec![8u8]]),
        }],
        output: vec![bitcoin::TxOut {
            value: bitcoin::Amount::from_sat(9),
            script_pubkey: bitcoin::ScriptBuf::from_bytes(vec![0x51]),
        }],
    };
    assert_eq!(tx.compute_txid().bytes, expected.compute_txid().to_byte_array());

    let mut unsigned = tx.clone();
    unsigned.input[0].witness = vec![];
    assert_eq!(unsigned.compute_txid(), tx.compute_txid());
    assert!(unsigned.same_unsigned(&tx));

    let mut other = tx.clone();
    other.version = 1;
    assert_ne!(other.compute_txid(), tx.compute_txid());
    assert!(!other.same_unsigned(&tx));
    let mut other = tx.clone();
    other.lock_time = 8;
    assert_ne!(other.compute_txid(), tx.compute_txid());
    assert!(!other.same_unsigned(&tx));
    let mut other = tx.clone();
    other.input[0].sequence = 0;
    assert_ne!(other.compute_txid(), tx.compute_txid());
    assert!(!other.same_unsigned(&tx));
    let mut other = tx.clone();
    other.input[0].script_sig = vec![];
    assert_ne!(other.compute_txid(), tx.compute_txid());
    assert!(!other.same_unsigned(&tx));
    let mut other = tx.clone();
    other.input[0].previous_output.vout = 6;
    assert_ne!(other.compute_txid(), tx.compute_txid());
    assert!(!other.same_unsigned(&tx));
    let mut other = tx.clone();
    other.output[0].value_sats = 10;
    assert_ne!(other.compute_txid(), tx.compute_txid());
    assert!(!other.same_unsigned(&tx));
    let mut other = tx.clone();
    other.output[0].script_pubkey = vec![0x52];
    assert_ne!(other.compute_txid(), tx.compute_txid());
    assert!(!other.same_unsigned(&tx));
    let mut other = tx.clone();
    other.output.push(output(1, vec![]));
    assert!(!other.same_unsigned(&tx));
}

#[test]
fn input_needs_an_output_that_pays_to_a_key_hash() {
    let tx = Transaction {
        version: 2,
        lock_time: 0,
        input: vec![],
        output: vec![
            output(1_000, p2wpkh([4; 20])),
            output(2_000, vec![0x51]),
            output(3_000, vec![]),
            // One byte short, one byte long, another version, and another length of the push.
            output(4_000, p2wpkh([4; 20])[..21].to_vec()),
            output(5_000, [p2wpkh([4; 20]), vec![0]].concat()),
            output(6_000, [vec![0x51, 20], vec![4; 20]].concat()),
            output(7_000, [vec![0, 19], vec![4; 20]].concat()),
            output(8_000, p2wpkh([5; 20])),
        ],
    };
    for vout in [1, 2, 3, 4, 5, 6] {
        assert!(FundingTxInput::new_p2wpkh(tx.clone(), vout).is_err());
    }
    // There is no such output.
    assert!(FundingTxInput::new_p2wpkh(tx.clone(), 8).is_err());
    assert!(FundingTxInput::new_p2wpkh(tx.clone(), u32::MAX).is_err());

    let first = FundingTxInput::new_p2wpkh(tx.clone(), 0).unwrap();
    assert_eq!(first.value_sats(), 1_000);
    assert_eq!(first.outpoint(), OutPoint { txid: tx.compute_txid(), vout: 0 });
    let last = FundingTxInput::new_p2wpkh(tx.clone(), 7).unwrap();
    assert_eq!(last.value_sats(), 8_000);
    assert_eq!(last.outpoint(), OutPoint { txid: tx.compute_txid(), vout: 7 });
    assert_eq!(*last.script_pubkey(), p2wpkh([5; 20]));
}

#[test]
fn input_of_a_transaction_with_a_known_identifier() {
    let txid = Txid { bytes: [6; 32] };
    let tx = make_single_output_tx(output(10, p2wpkh([1; 20])));
    let input = FundingTxInput::new_p2wpkh_with_txid(tx, 0, txid).unwrap();
    assert_eq!(input.outpoint(), OutPoint { txid, vout: 0 });
    let tx = make_single_output_tx(output(10, vec![]));
    assert!(FundingTxInput::new_p2wpkh_with_txid(tx, 0, txid).is_err());
}

#[test]
fn amounts_of_inputs_add_up_beyond_64_bits() {
    assert_eq!(total_value(&vec![]), 0);
    let inputs = vec![
        create_dummy_funding_input(u64::MAX),
        create_dummy_funding_input(2),
        create_dummy_funding_input(u64::MAX),
    ];
    assert_eq!(total_value(&inputs), 2 * (u64::MAX as u128) + 2);
}
