//! What nodes answer, negotiate and broadcast.

use dual_funding::channel::{ConfirmationTarget, Stage};
use dual_funding::config::{create_dual_funding_config, UserConfig};
use dual_funding::errors::APIError;
use dual_funding::funding::{create_dummy_funding_input, make_single_output_tx};
use dual_funding::ids::{ChannelId, NodeId};
use dual_funding::messages::{
    AcceptChannelV2, CommitmentSigned, CommonOpenChannelFields, ErrorReason, Event,
    InboundChannelFunds, MessageSendEvent, OpenChannelV2, TxAddInput, TxAddOutput, TxComplete,
    TxSignatures,
};
use dual_funding::negotiation::drive_interactive_tx_negotiation;
use dual_funding::node::{create_wallet_funding_input, Node};
use dual_funding::tx::{Transaction, TxOut};
use dual_funding::wallet::Wallet;

const TARGET: ConfirmationTarget = ConfirmationTarget::NonAnchorChannelFee;

fn node_id(n: u8) -> NodeId {
    let mut bytes = [n; 33];
    bytes[0] = 2;
    NodeId { bytes }
}

fn channel_id(n: u8) -> ChannelId {
    ChannelId { bytes: [n; 32] }
}

fn script() -> Vec<u8> {
    vec![0x51]
}

fn dual_funding_node(n: u8) -> Node {
    Node::new(node_id(n), create_dual_funding_config(), Wallet::new([n; 20]))
}

fn error_to(node: &mut Node, to: NodeId) -> ErrorReason {
    let messages = node.get_and_clear_pending_msg_events();
    assert_eq!(messages.len(), 1);
    match &messages[0] {
        MessageSendEvent::HandleError { node_id, reason } => {
            assert_eq!(*node_id, to);
            *reason
        },
        other => panic!("Expected HandleError, got {:?}", other),
    }
}

fn misuse<T: std::fmt::Debug>(r: Result<T, APIError>) -> String {
    match r {
        Err(APIError::APIMisuseError { err }) => err,
        other => panic!("Expected APIMisuseError, got {:?}", other),
    }
}

fn unavailable<T: std::fmt::Debug>(r: Result<T, APIError>) -> String {
    match r {
        Err(APIError::ChannelUnavailable { err }) => err,
        other => panic!("Expected ChannelUnavailable, got {:?}", other),
    }
}

fn proposal(id: ChannelId, funding_satoshis: u64) -> OpenChannelV2 {
    let announce_for_forwarding = false;
    let common_fields = CommonOpenChannelFields {
        temporary_channel_id: id,
        funding_satoshis,
        announce_for_forwarding,
    };
    OpenChannelV2 { common_fields }
}

/// Lets `a` propose a channel and `b` accept it, up to the first message of the negotiation.
fn open(a: &mut Node, b: &mut Node, funding: u64, ours: &[u64], contribution: u64, theirs: &[u64]) {
    let id = channel_id(7);
    let our_inputs = ours.iter().map(|v| create_wallet_funding_input(a, *v)).collect();
    a.create_v2_channel(b.get_our_node_id(), funding, our_inputs, 42, None, TARGET, id).unwrap();
    match a.get_and_clear_pending_msg_events().remove(0) {
        MessageSendEvent::SendOpenChannelV2 { msg, .. } => {
            b.handle_open_channel_v2(a.get_our_node_id(), &msg)
        },
        other => panic!("Expected SendOpenChannelV2, got {:?}", other),
    }
    assert_eq!(b.get_and_clear_pending_events().len(), 1);
    let their_inputs = theirs.iter().map(|v| create_wallet_funding_input(b, *v)).collect();
    let from = a.get_our_node_id();
    b.accept_inbound_channel_with_contribution(&id, &from, 43, contribution, their_inputs, None)
        .unwrap();
    match b.get_and_clear_pending_msg_events().remove(0) {
        MessageSendEvent::SendAcceptChannelV2 { msg, .. } => {
            assert_eq!(msg.funding_satoshis, contribution);
            a.handle_accept_channel_v2(b.get_our_node_id(), &msg, script())
        },
        other => panic!("Expected SendAcceptChannelV2, got {:?}", other),
    }
}

fn transaction_to_sign(node: &mut Node) -> Transaction {
    let mut events = node.get_and_clear_pending_events();
    assert_eq!(events.len(), 1);
    match events.remove(0) {
        Event::FundingTransactionReadyForSigning { unsigned_transaction, .. } => {
            unsigned_transaction
        },
        other => panic!("Expected FundingTransactionReadyForSigning, got {:?}", other),
    }
}

/// Signs with `count` witnesses that hold `byte`.
fn sign(node: &mut Node, peer: NodeId, tx: Transaction, byte: u8, count: usize) {
    let witnesses = vec![vec![vec![byte]]; count];
    let signed = node.wallet().sign_owned_inputs(tx, &witnesses).unwrap();
    node.funding_transaction_signed(&channel_id(7), &peer, signed).unwrap();
}

fn commitment(messages: &Vec<MessageSendEvent>) -> CommitmentSigned {
    match &messages[0] {
        MessageSendEvent::UpdateHTLCs { updates, .. } => updates.commitment_signed[0],
        other => panic!("Expected UpdateHTLCs, got {:?}", other),
    }
}

fn signatures(node: &mut Node) -> TxSignatures {
    let mut messages = node.get_and_clear_pending_msg_events();
    assert_eq!(messages.len(), 1);
    match messages.remove(0) {
        MessageSendEvent::SendTxSignatures { msg, .. } => msg,
        other => panic!("Expected SendTxSignatures, got {:?}", other),
    }
}

#[test]
fn smallest_channel_has_a_thousand_satoshis() {
    let mut node = dual_funding_node(1);
    let small = node.create_v2_channel(
        node_id(2),
        999,
        vec![create_dummy_funding_input(2_000)],
        42,
        None,
        TARGET,
        channel_id(7),
    );
    assert_eq!(misuse(small), "Channel value must be at least 1000 satoshis");
    assert!(node.get_and_clear_pending_msg_events().is_empty());
    let id = node
        .create_v2_channel(
            node_id(2),
            1_000,
            vec![create_dummy_funding_input(2_000)],
            42,
            None,
            TARGET,
            channel_id(7),
        )
        .unwrap();
    assert_eq!(id, channel_id(7));
    let channel = node.channel(&id).unwrap();
    assert_eq!(channel.stage, Stage::OpenSent);
    assert_eq!(channel.user_channel_id, 42);
    assert_eq!(channel.our_funding_sats, 1_000);
    assert_eq!(channel.confirmation_target, Some(TARGET));
}

#[test]
fn proposal_needs_inputs_and_a_fresh_name() {
    let mut node = dual_funding_node(1);
    let input = create_dummy_funding_input(99_999);
    let short =
        node.create_v2_channel(node_id(2), 100_000, vec![input], 1, None, TARGET, channel_id(7));
    assert_eq!(misuse(short), "Funding inputs do not cover the channel value");
    assert!(node.channel(&channel_id(7)).is_none());

    let input = create_dummy_funding_input(100_000);
    node.create_v2_channel(node_id(2), 100_000, vec![input], 1, None, TARGET, channel_id(7))
        .unwrap();
    let input = create_dummy_funding_input(100_000);
    let again =
        node.create_v2_channel(node_id(2), 100_000, vec![input], 2, None, TARGET, channel_id(7));
    assert_eq!(misuse(again), "There is already a channel of that name");
    assert_eq!(node.channel(&channel_id(7)).unwrap().user_channel_id, 1);
}

#[test]
fn override_config_decides_the_announcement() {
    let mut node = dual_funding_node(1);
    let mut config = create_dual_funding_config();
    config.announce_for_forwarding = true;
    let input = create_dummy_funding_input(2_000);
    node.create_v2_channel(node_id(2), 1_000, vec![input], 1, Some(config), TARGET, channel_id(7))
        .unwrap();
    match &node.get_and_clear_pending_msg_events()[0] {
        MessageSendEvent::SendOpenChannelV2 { msg, .. } => {
            assert!(msg.common_fields.announce_for_forwarding)
        },
        other => panic!("Expected SendOpenChannelV2, got {:?}", other),
    }
    assert_eq!(node.channel(&channel_id(7)).unwrap().config, config);
}

#[test]
fn request_tells_the_user_about_the_channel() {
    let mut node = dual_funding_node(2);
    node.handle_open_channel_v2(node_id(1), &proposal(channel_id(7), 100_000));
    let events = node.get_and_clear_pending_events();
    assert_eq!(events.len(), 1);
    match &events[0] {
        Event::OpenChannelRequest {
            temporary_channel_id,
            counterparty_node_id,
            funding_satoshis,
            is_announced,
            params,
        } => {
            assert_eq!(*temporary_channel_id, channel_id(7));
            assert_eq!(*counterparty_node_id, node_id(1));
            assert_eq!(*funding_satoshis, 100_000);
            assert!(!*is_announced);
            assert_eq!(*params, InboundChannelFunds::DualFunded);
        },
        other => panic!("Expected OpenChannelRequest, got {:?}", other),
    }
    assert!(node.get_and_clear_pending_msg_events().is_empty());
}

#[test]
fn proposals_are_refused_for_a_reason() {
    let mut disabled = Node::new(node_id(3), UserConfig::default(), Wallet::new([3; 20]));
    disabled.handle_open_channel_v2(node_id(1), &proposal(channel_id(7), 100_000));
    assert_eq!(error_to(&mut disabled, node_id(1)), ErrorReason::DualFundingDisabled);
    assert!(disabled.channel(&channel_id(7)).is_none());

    let mut node = dual_funding_node(2);
    node.handle_open_channel_v2(node_id(1), &proposal(channel_id(7), 100_000));
    node.handle_open_channel_v2(node_id(4), &proposal(channel_id(7), 5_000));
    assert_eq!(error_to(&mut node, node_id(4)), ErrorReason::DuplicateChannel);
    assert_eq!(node.channel(&channel_id(7)).unwrap().counterparty, node_id(1));
    assert_eq!(node.get_and_clear_pending_events().len(), 1);
}

#[test]
fn acceptance_needs_a_request() {
    let id = channel_id(7);
    let mut node = dual_funding_node(2);
    let none = "There is no such channel request";
    assert_eq!(unavailable(node.accept_inbound_channel(&id, &node_id(1), 43, None)), none);
    node.handle_open_channel_v2(node_id(1), &proposal(id, 100_000));
    assert_eq!(unavailable(node.accept_inbound_channel(&id, &node_id(4), 43, None)), none);
    assert_eq!(
        unavailable(node.accept_inbound_channel_from_trusted_peer_0conf(
            &id,
            &node_id(4),
            43,
            None
        )),
        none
    );
    assert_eq!(
        unavailable(node.accept_inbound_channel_with_contribution(
            &id,
            &node_id(4),
            43,
            0,
            vec![],
            None
        )),
        none
    );
    assert_eq!(
        misuse(node.accept_inbound_channel_with_contribution(
            &id,
            &node_id(1),
            43,
            1_001,
            vec![create_dummy_funding_input(1_000)],
            None
        )),
        "Funding inputs do not cover the contribution"
    );
    assert!(node.get_and_clear_pending_msg_events().is_empty());

    node.accept_inbound_channel_from_trusted_peer_0conf(&id, &node_id(1), 43, None).unwrap();
    let channel = node.channel(&id).unwrap();
    assert!(channel.zero_conf);
    assert_eq!(channel.user_channel_id, 43);
    assert_eq!(channel.our_funding_sats, 0);
    assert_eq!(channel.their_funding_sats, 100_000);
    assert_eq!(channel.stage, Stage::Negotiating);
    // It was accepted already.
    assert_eq!(unavailable(node.accept_inbound_channel(&id, &node_id(1), 43, None)), none);
}

#[test]
fn messages_out_of_place_are_refused() {
    let id = channel_id(7);
    let mut node = dual_funding_node(2);
    let complete = TxComplete { channel_id: id };
    let output = TxOut { value_sats: 1, script_pubkey: vec![] };
    let add_output = TxAddOutput { channel_id: id, output };
    let prevtx = create_dummy_funding_input(5).into_prevtx();
    let add_input = TxAddInput { channel_id: id, prevtx, prevtx_out: 0 };
    let commitment = CommitmentSigned { channel_id: id };
    let signatures = TxSignatures { channel_id: id, witnesses: vec![] };
    let answer = AcceptChannelV2 { temporary_channel_id: id, funding_satoshis: 0 };

    // First there is no such channel, then it is at another stage.
    for reason in [ErrorReason::UnknownChannel, ErrorReason::UnexpectedMessage] {
        node.handle_tx_complete(node_id(1), &complete);
        assert_eq!(error_to(&mut node, node_id(1)), reason);
        node.handle_tx_add_output(node_id(1), &add_output);
        assert_eq!(error_to(&mut node, node_id(1)), reason);
        node.handle_tx_add_input(node_id(1), &add_input);
        assert_eq!(error_to(&mut node, node_id(1)), reason);
        node.handle_commitment_signed(node_id(1), &commitment);
        assert_eq!(error_to(&mut node, node_id(1)), reason);
        node.handle_tx_signatures(node_id(1), &signatures);
        assert_eq!(error_to(&mut node, node_id(1)), reason);
        node.handle_accept_channel_v2(node_id(1), &answer, script());
        assert_eq!(error_to(&mut node, node_id(1)), reason);
        if reason == ErrorReason::UnknownChannel {
            node.handle_open_channel_v2(node_id(1), &proposal(id, 100_000));
        }
    }
    assert_eq!(node.channel(&id).unwrap().stage, Stage::Requested);
    // A message of somebody else is about no channel of theirs.
    node.handle_tx_complete(node_id(4), &complete);
    assert_eq!(error_to(&mut node, node_id(4)), ErrorReason::UnknownChannel);
}

#[test]
fn contributions_must_add_up_to_an_amount() {
    let id = channel_id(7);
    let mut node = dual_funding_node(1);
    let input = create_dummy_funding_input(2_000);
    node.create_v2_channel(node_id(2), 1_000, vec![input], 1, None, TARGET, id).unwrap();
    node.get_and_clear_pending_msg_events();
    let too_much = AcceptChannelV2 { temporary_channel_id: id, funding_satoshis: u64::MAX - 999 };
    node.handle_accept_channel_v2(node_id(2), &too_much, script());
    assert_eq!(error_to(&mut node, node_id(2)), ErrorReason::AmountOverflow);
    assert_eq!(node.channel(&id).unwrap().stage, Stage::OpenSent);
    let most = AcceptChannelV2 { temporary_channel_id: id, funding_satoshis: u64::MAX - 1_000 };
    node.handle_accept_channel_v2(node_id(2), &most, script());
    assert_eq!(node.channel(&id).unwrap().stage, Stage::Negotiating);
    assert_eq!(node.channel(&id).unwrap().their_funding_sats, u64::MAX - 1_000);
}

#[test]
fn inputs_must_be_outputs_of_their_transaction() {
    let id = channel_id(7);
    let mut node = dual_funding_node(2);
    node.handle_open_channel_v2(node_id(1), &proposal(id, 100_000));
    node.accept_inbound_channel(&id, &node_id(1), 43, None).unwrap();
    node.get_and_clear_pending_msg_events();
    let prevtx = create_dummy_funding_input(5).into_prevtx();
    node.handle_tx_add_input(
        node_id(1),
        &TxAddInput { channel_id: id, prevtx: prevtx.clone(), prevtx_out: 1 },
    );
    assert_eq!(error_to(&mut node, node_id(1)), ErrorReason::InvalidInput);
    assert!(node.channel(&id).unwrap().items.is_empty());
    let add = TxAddInput { channel_id: id, prevtx, prevtx_out: 0 };
    node.handle_tx_add_input(node_id(1), &add);
    assert_eq!(node.channel(&id).unwrap().items.len(), 1);
    let messages = node.get_and_clear_pending_msg_events();
    assert!(matches!(messages[0], MessageSendEvent::SendTxComplete { .. }));

    // An output is spent once.
    node.handle_tx_add_input(node_id(1), &add);
    assert_eq!(error_to(&mut node, node_id(1)), ErrorReason::InvalidInput);
    assert_eq!(node.channel(&id).unwrap().items.len(), 1);
}

#[test]
fn inputs_must_spend_witness_outputs() {
    let id = channel_id(7);
    let mut node = dual_funding_node(2);
    node.handle_open_channel_v2(node_id(1), &proposal(id, 100_000));
    node.accept_inbound_channel(&id, &node_id(1), 43, None).unwrap();
    node.get_and_clear_pending_msg_events();
    let program = |version: u8, length: u8| [vec![version, length], vec![7; length.into()]].concat();
    let refused = [
        vec![],
        vec![0x51],
        program(0, 1),
        program(0, 41),
        program(0x50, 32),
        program(0x61, 32),
        program(1, 20),
        [program(0, 20), vec![0]].concat(),
    ];
    for script_pubkey in refused {
        let prevtx = make_single_output_tx(TxOut { value_sats: 5, script_pubkey });
        node.handle_tx_add_input(node_id(1), &TxAddInput { channel_id: id, prevtx, prevtx_out: 0 });
        assert_eq!(error_to(&mut node, node_id(1)), ErrorReason::InvalidInput);
    }
    let accepted = [program(0, 2), program(0, 20), program(0x51, 32), program(0x60, 40)];
    for script_pubkey in accepted {
        let prevtx = make_single_output_tx(TxOut { value_sats: 5, script_pubkey });
        node.handle_tx_add_input(node_id(1), &TxAddInput { channel_id: id, prevtx, prevtx_out: 0 });
        let messages = node.get_and_clear_pending_msg_events();
        assert!(matches!(messages[0], MessageSendEvent::SendTxComplete { .. }));
    }
    assert_eq!(node.channel(&id).unwrap().items.len(), 4);
}

#[test]
fn node_advertises_what_is_enabled() {
    assert!(dual_funding_node(1).advertises_dual_funding());
    let disabled = Node::new(node_id(3), UserConfig::default(), Wallet::new([3; 20]));
    assert!(!disabled.advertises_dual_funding());
}

#[test]
fn both_sides_contribute_and_broadcast_the_same_transaction() {
    let id = channel_id(7);
    let (mut a, mut b) = (dual_funding_node(1), dual_funding_node(2));
    open(&mut a, &mut b, 100_000, &[60_000, 50_000], 20_000, &[30_000]);
    drive_interactive_tx_negotiation(&mut a, &mut b);

    // Both ask their users to sign, and send nothing before that.
    assert!(a.get_and_clear_pending_msg_events().is_empty());
    assert!(b.get_and_clear_pending_msg_events().is_empty());
    let tx_a = transaction_to_sign(&mut a);
    let tx_b = transaction_to_sign(&mut b);
    assert!(tx_a.same_unsigned(&tx_b));
    assert_eq!(tx_a.compute_txid(), tx_b.compute_txid());

    // The sides took turns: input, input, input, and then the only output.
    assert_eq!(tx_a.input.len(), 3);
    assert_eq!(a.wallet().owned_inputs(&tx_a), vec![true, false, true]);
    assert_eq!(b.wallet().owned_inputs(&tx_a), vec![false, true, false]);
    assert_eq!(tx_a.output.len(), 1);
    assert_eq!(tx_a.output[0].value_sats, 120_000);
    assert_eq!(tx_a.output[0].script_pubkey, script());
    assert_eq!(a.channel(&id).unwrap().owners, vec![true, false, true]);
    assert_eq!(a.channel(&id).unwrap().items.len(), 4);

    // The side that has put in less reveals its signatures first, but not before it holds the
    // other side's signature on its commitment transaction.
    sign(&mut b, node_id(1), tx_b, 0xB0, 1);
    let messages_b = b.get_and_clear_pending_msg_events();
    assert_eq!(messages_b.len(), 1);
    let early = TxSignatures { channel_id: id, witnesses: vec![vec![vec![1]]] };
    a.handle_tx_signatures(node_id(2), &early);
    assert_eq!(error_to(&mut a, node_id(2)), ErrorReason::UnexpectedMessage);
    sign(&mut a, node_id(2), tx_a, 0xA0, 2);
    let messages_a = a.get_and_clear_pending_msg_events();
    assert_eq!(messages_a.len(), 1);
    a.handle_commitment_signed(node_id(2), &commitment(&messages_b));
    assert!(a.get_and_clear_pending_msg_events().is_empty());
    b.handle_commitment_signed(node_id(1), &commitment(&messages_a));
    let of_b = signatures(&mut b);
    assert_eq!(of_b.witnesses, vec![vec![vec![0xB0]]]);
    assert!(b.txn_broadcast().is_empty());

    // A second commitment signature is out of place.
    a.handle_commitment_signed(node_id(2), &commitment(&messages_b));
    assert_eq!(error_to(&mut a, node_id(2)), ErrorReason::UnexpectedMessage);

    // Witnesses must fit the inputs.
    for witnesses in [vec![], vec![vec![vec![1]]; 2], vec![vec![]]] {
        a.handle_tx_signatures(node_id(2), &TxSignatures { channel_id: id, witnesses });
        assert_eq!(error_to(&mut a, node_id(2)), ErrorReason::InvalidWitnesses);
    }

    a.handle_tx_signatures(node_id(2), &of_b);
    let of_a = signatures(&mut a);
    assert_eq!(of_a.witnesses, vec![vec![vec![0xA0]], vec![vec![0xA0]]]);
    b.handle_tx_signatures(node_id(1), &of_a);

    let (txn_a, txn_b) = (a.txn_broadcast(), b.txn_broadcast());
    assert_eq!((txn_a.len(), txn_b.len()), (1, 1));
    for tx in [&txn_a[0], &txn_b[0]] {
        let witnesses: Vec<_> = tx.input.iter().map(|i| i.witness.clone()).collect();
        assert_eq!(witnesses, vec![vec![vec![0xA0]], vec![vec![0xB0]], vec![vec![0xA0]]]);
        assert_eq!(tx.compute_txid(), txn_a[0].compute_txid());
    }
    for node in [&mut a, &mut b] {
        assert_eq!(node.channel(&id).unwrap().stage, Stage::Broadcast);
        assert_eq!(node.get_and_clear_added_monitors(), vec![id]);
        let events = node.get_and_clear_pending_events();
        assert_eq!(events.len(), 1);
        assert!(matches!(events[0], Event::ChannelPending { .. }));
    }

    // The channel outlives its connection and the node.
    a.peer_disconnected(node_id(2));
    a.restart();
    assert!(a.channel(&id).is_some());
    assert!(a.get_and_clear_pending_events().is_empty());
}

#[test]
fn lower_key_goes_first_when_both_put_in_the_same() {
    for (first, second) in [(1, 2), (2, 1)] {
        let (mut a, mut b) = (dual_funding_node(first), dual_funding_node(second));
        let (id_a, id_b) = (node_id(first), node_id(second));
        open(&mut a, &mut b, 10_000, &[20_000], 10_000, &[20_000]);
        drive_interactive_tx_negotiation(&mut a, &mut b);
        let (tx_a, tx_b) = (transaction_to_sign(&mut a), transaction_to_sign(&mut b));
        sign(&mut a, id_b, tx_a, 0xA0, 1);
        sign(&mut b, id_a, tx_b, 0xB0, 1);
        let commitment_a = commitment(&a.get_and_clear_pending_msg_events());
        let commitment_b = commitment(&b.get_and_clear_pending_msg_events());
        a.handle_commitment_signed(id_b, &commitment_b);
        b.handle_commitment_signed(id_a, &commitment_a);
        let (low, high) = if first < second { (&mut a, &mut b) } else { (&mut b, &mut a) };
        assert!(high.get_and_clear_pending_msg_events().is_empty());
        let of_low = signatures(low);
        assert_eq!(of_low.witnesses.len(), 1);
        high.handle_tx_signatures(low.get_our_node_id(), &of_low);
        assert_eq!(signatures(high).witnesses.len(), 1);
        assert_eq!(high.txn_broadcast().len(), 1);
    }
}

#[test]
fn signatures_out_of_turn_are_refused() {
    let (mut a, mut b) = (dual_funding_node(1), dual_funding_node(2));
    open(&mut a, &mut b, 100_000, &[110_000], 20_000, &[30_000]);
    drive_interactive_tx_negotiation(&mut a, &mut b);
    let tx_a = transaction_to_sign(&mut a);
    sign(&mut a, node_id(2), tx_a, 0xA0, 1);
    let commitment_a = commitment(&a.get_and_clear_pending_msg_events());
    b.handle_commitment_signed(node_id(1), &commitment_a);
    // The acceptor goes first, and its user has not signed yet.
    assert!(b.get_and_clear_pending_msg_events().is_empty());
    let early = TxSignatures { channel_id: channel_id(7), witnesses: vec![vec![vec![0xA0]]] };
    b.handle_tx_signatures(node_id(1), &early);
    assert_eq!(error_to(&mut b, node_id(1)), ErrorReason::UnexpectedMessage);

    // Once it has signed, it sends both its signatures, and takes the other side's.
    let tx_b = transaction_to_sign(&mut b);
    sign(&mut b, node_id(1), tx_b, 0xB0, 1);
    let messages = b.get_and_clear_pending_msg_events();
    assert_eq!(messages.len(), 2);
    assert!(matches!(messages[0], MessageSendEvent::UpdateHTLCs { .. }));
    match &messages[1] {
        MessageSendEvent::SendTxSignatures { msg, .. } => {
            assert_eq!(msg.witnesses, vec![vec![vec![0xB0]]])
        },
        other => panic!("Expected SendTxSignatures, got {:?}", other),
    }
    b.handle_tx_signatures(node_id(1), &early);
    assert_eq!(b.txn_broadcast().len(), 1);
}

#[test]
fn user_may_sign_before_or_after_the_commitment_arrives() {
    let mut seen = vec![];
    for commitment_first in [false, true] {
        let (mut a, mut b) = (dual_funding_node(1), dual_funding_node(2));
        open(&mut a, &mut b, 100_000, &[110_000], 20_000, &[30_000]);
        drive_interactive_tx_negotiation(&mut a, &mut b);
        let (tx_a, tx_b) = (transaction_to_sign(&mut a), transaction_to_sign(&mut b));
        sign(&mut a, node_id(2), tx_a, 0xA0, 1);
        let commitment_a = commitment(&a.get_and_clear_pending_msg_events());
        if commitment_first {
            b.handle_commitment_signed(node_id(1), &commitment_a);
            assert!(b.get_and_clear_pending_msg_events().is_empty());
        }
        sign(&mut b, node_id(1), tx_b, 0xB0, 1);
        if !commitment_first {
            b.handle_commitment_signed(node_id(1), &commitment_a);
        }
        let messages = b.get_and_clear_pending_msg_events();
        assert_eq!(messages.len(), 2);
        a.handle_commitment_signed(node_id(2), &commitment(&messages));
        match &messages[1] {
            MessageSendEvent::SendTxSignatures { msg, .. } => {
                a.handle_tx_signatures(node_id(2), msg)
            },
            other => panic!("Expected SendTxSignatures, got {:?}", other),
        }
        let of_a = signatures(&mut a);
        b.handle_tx_signatures(node_id(1), &of_a);
        let (txn_a, txn_b) = (a.txn_broadcast(), b.txn_broadcast());
        assert_eq!((txn_a.len(), txn_b.len()), (1, 1));
        assert_eq!(txn_a[0].compute_txid(), txn_b[0].compute_txid());
        seen.push(format!("{:?}", b));
    }
    // The order leaves no trace.
    assert_eq!(seen[0], seen[1]);
}

#[test]
fn user_signs_the_negotiated_transaction() {
    let id = channel_id(7);
    let (mut a, mut b) = (dual_funding_node(1), dual_funding_node(2));
    open(&mut a, &mut b, 100_000, &[105_000], 0, &[]);
    drive_interactive_tx_negotiation(&mut a, &mut b);
    let tx = transaction_to_sign(&mut a);

    let none = "There is no such channel to sign for";
    let other = a.funding_transaction_signed(&channel_id(8), &node_id(2), tx.clone());
    assert_eq!(unavailable(other), none);
    let stranger = a.funding_transaction_signed(&id, &node_id(3), tx.clone());
    assert_eq!(unavailable(stranger), none);

    let unsigned = a.funding_transaction_signed(&id, &node_id(2), tx.clone());
    assert_eq!(misuse(unsigned), "An input of this side is not signed");
    let mut signed = tx.clone();
    signed.input[0].witness = vec![vec![1]];
    let mut changed = signed.clone();
    changed.output[0].value_sats -= 1;
    let changed = a.funding_transaction_signed(&id, &node_id(2), changed);
    assert_eq!(misuse(changed), "The transaction is not the negotiated one");
    assert!(a.get_and_clear_pending_msg_events().is_empty());

    a.funding_transaction_signed(&id, &node_id(2), signed.clone()).unwrap();
    assert_eq!(a.get_and_clear_pending_msg_events().len(), 1);
    let again = a.funding_transaction_signed(&id, &node_id(2), signed);
    assert_eq!(misuse(again), "The funding transaction is already signed");

    // The acceptor has nothing to sign, and has sent its commitment signature at once.
    assert!(b.channel(&id).unwrap().holder_signed);
    assert!(b.get_and_clear_pending_events().is_empty());
    assert_eq!(commitment(&b.get_and_clear_pending_msg_events()).channel_id, id);
}

#[test]
fn unfunded_channels_do_not_survive_a_disconnection() {
    let (mut a, mut b) = (dual_funding_node(1), dual_funding_node(2));
    open(&mut a, &mut b, 100_000, &[105_000], 0, &[]);
    let input = create_dummy_funding_input(5_000);
    a.create_v2_channel(node_id(3), 5_000, vec![input], 44, None, TARGET, channel_id(8)).unwrap();

    a.peer_disconnected(node_id(4));
    assert!(a.get_and_clear_pending_events().is_empty());
    a.peer_disconnected(node_id(2));
    assert!(a.channel(&channel_id(7)).is_none());
    assert!(a.channel(&channel_id(8)).is_some());
    let events = a.get_and_clear_pending_events();
    assert_eq!(events.len(), 1);
    match &events[0] {
        Event::ChannelClosed { channel_id: id, counterparty_node_id, user_channel_id } => {
            assert_eq!(*id, channel_id(7));
            assert_eq!(*counterparty_node_id, node_id(2));
            assert_eq!(*user_channel_id, 42);
        },
        other => panic!("Expected ChannelClosed, got {:?}", other),
    }
    // Nothing was broadcast, and the wallet still has its output.
    assert!(a.txn_broadcast().is_empty());
    assert_eq!(a.wallet().list_confirmed_utxos().len(), 1);

    a.restart();
    assert!(a.channel(&channel_id(8)).is_none());
    assert_eq!(a.get_and_clear_pending_events().len(), 1);
}

#[test]
fn channel_under_signature_survives_a_restart() {
    let (mut a, mut b) = (dual_funding_node(1), dual_funding_node(2));
    open(&mut a, &mut b, 100_000, &[105_000], 0, &[]);
    drive_interactive_tx_negotiation(&mut a, &mut b);
    a.restart();
    b.peer_disconnected(node_id(1));
    assert_eq!(a.channel(&channel_id(7)).unwrap().stage, Stage::Signing);
    assert_eq!(b.channel(&channel_id(7)).unwrap().stage, Stage::Signing);
}

#[test]
fn wallet_input_is_added_to_the_wallet() {
    let mut node = dual_funding_node(5);
    let input = create_wallet_funding_input(&mut node, 105_000);
    assert_eq!(input.value_sats(), 105_000);
    assert_eq!(*input.script_pubkey(), node.wallet().get_change_script());
    assert_eq!(input.outpoint().vout, 0);
    assert_eq!(input.outpoint().txid, input.prevtx().compute_txid());
    assert!(node.wallet().owns(&input.outpoint()));
    assert!(!node.wallet().owns(&create_dummy_funding_input(105_000).outpoint()));
    let utxos = node.wallet().list_confirmed_utxos();
    assert_eq!(utxos.len(), 1);
    assert_eq!(utxos[0].txout.value_sats, 105_000);
}

#[test]
fn input_is_named_by_the_identifier_that_is_known() {
    let id = channel_id(7);
    let mut node = dual_funding_node(2);
    node.handle_open_channel_v2(node_id(1), &proposal(id, 100_000));
    node.accept_inbound_channel(&id, &node_id(1), 43, None).unwrap();
    node.get_and_clear_pending_msg_events();
    let input = create_dummy_funding_input(100_500);
    let outpoint = input.outpoint();
    let msg = TxAddInput { channel_id: id, prevtx: input.into_prevtx(), prevtx_out: 0 };
    node.handle_tx_add_input_as(node_id(1), &msg, outpoint.txid);
    node.get_and_clear_pending_msg_events();
    node.handle_tx_complete(node_id(1), &TxComplete { channel_id: id });
    let channel = node.channel(&id).unwrap();
    assert_eq!(channel.stage, Stage::Signing);
    assert_eq!(channel.tx.input[0].previous_output, outpoint);
    assert_eq!(channel.owners, vec![true]);
}
