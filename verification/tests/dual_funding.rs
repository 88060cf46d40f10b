//! The creation of dual-funded channels between two nodes.

use dual_funding::channel::{ConfirmationTarget, Stage};
use dual_funding::config::{create_dual_funding_config, UserConfig};
use dual_funding::errors::APIError;
use dual_funding::funding::create_dummy_funding_input;
use dual_funding::ids::{ChannelId, NodeId};
use dual_funding::messages::{AcceptChannelV2, Event, MessageSendEvent, OpenChannelV2};
use dual_funding::negotiation::drive_interactive_tx_negotiation;
use dual_funding::node::{create_wallet_funding_input, Node};
use dual_funding::wallet::Wallet;

fn node_id(n: u8) -> NodeId {
    let mut bytes = [n; 33];
    bytes[0] = 2;
    NodeId { bytes }
}

fn fresh_channel_id() -> ChannelId {
    ChannelId { bytes: [7; 32] }
}

fn funding_script() -> Vec<u8> {
    let mut script = vec![0, 32];
    script.extend_from_slice(&[9; 32]);
    script
}

fn create_network(configs: [Option<UserConfig>; 2]) -> (Node, Node) {
    let [first, second] = configs;
    (
        Node::new(node_id(1), first.unwrap_or_default(), Wallet::new([1; 20])),
        Node::new(node_id(2), second.unwrap_or_default(), Wallet::new([2; 20])),
    )
}

fn get_open_channel_v2(node: &mut Node, to: NodeId) -> OpenChannelV2 {
    let msg_events = node.get_and_clear_pending_msg_events();
    assert_eq!(msg_events.len(), 1);
    match &msg_events[0] {
        MessageSendEvent::SendOpenChannelV2 { node_id, msg } => {
            assert_eq!(*node_id, to);
            *msg
        },
        _ => panic!("Expected SendOpenChannelV2, got {:?}", msg_events[0]),
    }
}

fn get_accept_channel_v2(node: &mut Node, to: NodeId) -> AcceptChannelV2 {
    let msg_events = node.get_and_clear_pending_msg_events();
    assert_eq!(msg_events.len(), 1);
    match &msg_events[0] {
        MessageSendEvent::SendAcceptChannelV2 { node_id, msg } => {
            assert_eq!(*node_id, to);
            *msg
        },
        _ => panic!("Expected SendAcceptChannelV2, got {:?}", msg_events[0]),
    }
}

#[test]
fn test_v2_channel_open_send_open_channel_v2() {
    let dual_fund_config = create_dual_funding_config();
    let (mut node_0, mut node_1) =
        create_network([Some(dual_fund_config), Some(dual_fund_config)]);

    let funding_satoshis = 100_000;
    let funding_input = create_dummy_funding_input(funding_satoshis + 1_000); // extra for fees

    // Node 0 creates a v2 channel to node 1.
    let temp_channel_id = node_0
        .create_v2_channel(
            node_1.get_our_node_id(),
            funding_satoshis,
            vec![funding_input],
            42, // user_channel_id
            None,
            ConfirmationTarget::NonAnchorChannelFee,
            fresh_channel_id(),
        )
        .unwrap();

    // An OpenChannelV2 message was queued.
    let msg_events = node_0.get_and_clear_pending_msg_events();
    assert_eq!(msg_events.len(), 1);
    let open_channel_v2_msg = match &msg_events[0] {
        MessageSendEvent::SendOpenChannelV2 { node_id, msg } => {
            assert_eq!(*node_id, node_1.get_our_node_id());
            assert_eq!(msg.common_fields.funding_satoshis, funding_satoshis);
            *msg
        },
        _ => panic!("Expected SendOpenChannelV2, got {:?}", msg_events[0]),
    };

    // Node 1 handles the OpenChannelV2 message.
    node_1.handle_open_channel_v2(node_0.get_our_node_id(), &open_channel_v2_msg);

    // Node 1 generates an OpenChannelRequest event.
    let events = node_1.get_and_clear_pending_events();
    assert_eq!(events.len(), 1);
    match &events[0] {
        Event::OpenChannelRequest { temporary_channel_id, counterparty_node_id, .. } => {
            assert_eq!(*counterparty_node_id, node_0.get_our_node_id());
            assert_eq!(*temporary_channel_id, temp_channel_id);
        },
        _ => panic!("Expected OpenChannelRequest, got {:?}", events[0]),
    };
}

#[test]
fn test_v2_channel_accept_and_interactive_tx_begins() {
    let dual_fund_config = create_dual_funding_config();
    let (mut node_0, mut node_1) =
        create_network([Some(dual_fund_config), Some(dual_fund_config)]);
    let node_id_0 = node_0.get_our_node_id();
    let node_id_1 = node_1.get_our_node_id();

    let funding_satoshis = 100_000;
    let funding_input = create_dummy_funding_input(funding_satoshis + 1_000);

    // Node 0 creates a v2 channel.
    let _temp_channel_id = node_0
        .create_v2_channel(
            node_id_1,
            funding_satoshis,
            vec![funding_input],
            42,
            None,
            ConfirmationTarget::NonAnchorChannelFee,
            fresh_channel_id(),
        )
        .unwrap();

    // Get and deliver the OpenChannelV2.
    let open_msg = get_open_channel_v2(&mut node_0, node_id_1);
    node_1.handle_open_channel_v2(node_id_0, &open_msg);

    // Node 1 receives OpenChannelRequest event and accepts with zero contribution.
    let events = node_1.get_and_clear_pending_events();
    assert_eq!(events.len(), 1);
    let temp_channel_id = match &events[0] {
        Event::OpenChannelRequest { temporary_channel_id, .. } => *temporary_channel_id,
        _ => panic!("Expected OpenChannelRequest"),
    };

    node_1.accept_inbound_channel(&temp_channel_id, &node_id_0, 43, None).unwrap();

    // Node 1 sends AcceptChannelV2.
    let accept_msg = get_accept_channel_v2(&mut node_1, node_id_0);

    // Node 0 handles AcceptChannelV2, which starts interactive tx.
    node_0.handle_accept_channel_v2(node_id_1, &accept_msg, funding_script());

    // Node 0 has queued the first interactive tx message.
    let msg_events = node_0.get_and_clear_pending_msg_events();
    assert!(!msg_events.is_empty(), "Expected interactive tx messages after accept_channel_v2");

    match &msg_events[0] {
        MessageSendEvent::SendTxAddInput { .. }
        | MessageSendEvent::SendTxAddOutput { .. }
        | MessageSendEvent::SendTxComplete { .. } => {},
        _ => panic!(
            "Expected interactive tx message (TxAddInput/TxAddOutput/TxComplete), got {:?}",
            msg_events[0]
        ),
    }
}

#[test]
fn test_v2_feature_gate_disabled() {
    // The default config has dual funding disabled.
    let (mut node_0, node_1) = create_network([None, None]);

    let funding_input = create_dummy_funding_input(101_000);

    // create_v2_channel fails when dual funding is disabled.
    let result = node_0.create_v2_channel(
        node_1.get_our_node_id(),
        100_000,
        vec![funding_input],
        42,
        None,
        ConfirmationTarget::NonAnchorChannelFee,
        fresh_channel_id(),
    );
    assert!(result.is_err());
    match result.unwrap_err() {
        APIError::APIMisuseError { err } => {
            assert!(
                err.contains("Dual-funded channels are not enabled"),
                "Unexpected error: {}",
                err
            );
        },
        e => panic!("Expected APIMisuseError, got {:?}", e),
    }
}

#[test]
fn test_v2_channel_minimum_value() {
    let dual_fund_config = create_dual_funding_config();
    let (mut node_0, node_1) = create_network([Some(dual_fund_config), Some(dual_fund_config)]);

    let funding_input = create_dummy_funding_input(2_000);

    let result = node_0.create_v2_channel(
        node_1.get_our_node_id(),
        999, // below minimum
        vec![funding_input],
        42,
        None,
        ConfirmationTarget::NonAnchorChannelFee,
        fresh_channel_id(),
    );
    assert!(result.is_err());
}

#[test]
fn test_v2_handle_open_channel_v2_feature_disabled() {
    let dual_fund_config = create_dual_funding_config();
    // Only node 0 has dual funding enabled; node 1 does not.
    let (mut node_0, mut node_1) = create_network([Some(dual_fund_config), None]);

    let funding_input = create_dummy_funding_input(101_000);

    // Node 0 creates a v2 channel.
    let _temp_channel_id = node_0
        .create_v2_channel(
            node_1.get_our_node_id(),
            100_000,
            vec![funding_input],
            42,
            None,
            ConfirmationTarget::NonAnchorChannelFee,
            fresh_channel_id(),
        )
        .unwrap();

    let open_msg = get_open_channel_v2(&mut node_0, node_1.get_our_node_id());

    // Node 1 (without dual funding) rejects the OpenChannelV2.
    node_1.handle_open_channel_v2(node_0.get_our_node_id(), &open_msg);

    // It sends an error message back, and raises no OpenChannelRequest event.
    let events = node_1.get_and_clear_pending_events();
    assert!(events.is_empty(), "Should not get any events when dual funding is disabled");

    let msg_events = node_1.get_and_clear_pending_msg_events();
    assert!(!msg_events.is_empty(), "Should get an error message");
    match &msg_events[0] {
        MessageSendEvent::HandleError { node_id, .. } => {
            assert_eq!(*node_id, node_0.get_our_node_id());
        },
        _ => panic!("Expected HandleError, got {:?}", msg_events[0]),
    }
}

#[test]
fn test_v2_channel_full_lifecycle() {
    // Only the initiator contributes inputs. The acceptor has zero contribution.
    let dual_fund_config = create_dual_funding_config();
    let (mut node_0, mut node_1) =
        create_network([Some(dual_fund_config), Some(dual_fund_config)]);

    let node_id_0 = node_0.get_our_node_id();
    let node_id_1 = node_1.get_our_node_id();

    let funding_satoshis = 100_000;
    // A wallet-signable funding input for the initiator.
    let funding_input = create_wallet_funding_input(&mut node_0, funding_satoshis + 5_000);

    // Step 1: Node 0 creates a v2 channel.
    let _temp_channel_id = node_0
        .create_v2_channel(
            node_id_1,
            funding_satoshis,
            vec![funding_input],
            42,
            None,
            ConfirmationTarget::NonAnchorChannelFee,
            fresh_channel_id(),
        )
        .unwrap();

    // Step 2: Deliver OpenChannelV2 to node 1.
    let open_msg = get_open_channel_v2(&mut node_0, node_id_1);
    node_1.handle_open_channel_v2(node_id_0, &open_msg);

    // Step 3: Node 1 accepts with zero contribution.
    let events = node_1.get_and_clear_pending_events();
    assert_eq!(events.len(), 1);
    let temp_channel_id = match &events[0] {
        Event::OpenChannelRequest { temporary_channel_id, .. } => *temporary_channel_id,
        _ => panic!("Expected OpenChannelRequest"),
    };
    node_1.accept_inbound_channel(&temp_channel_id, &node_id_0, 43, None).unwrap();

    // Step 4: Deliver AcceptChannelV2 to node 0. This starts interactive tx.
    let accept_msg = get_accept_channel_v2(&mut node_1, node_id_0);
    node_0.handle_accept_channel_v2(node_id_1, &accept_msg, funding_script());

    // Step 5: Drive interactive tx negotiation to completion.
    drive_interactive_tx_negotiation(&mut node_0, &mut node_1);

    // Step 6: The acceptor (0 contribution) auto-signs during tx_complete and sends
    // commitment_signed. The initiator gets FundingTransactionReadyForSigning.
    let acceptor_msg_events = node_1.get_and_clear_pending_msg_events();
    let acceptor_commitment_signed = if !acceptor_msg_events.is_empty() {
        match &acceptor_msg_events[0] {
            MessageSendEvent::UpdateHTLCs { updates, .. } => Some(updates.commitment_signed[0]),
            _ => None,
        }
    } else {
        None
    };

    let mut events = node_0.get_and_clear_pending_events();
    assert_eq!(events.len(), 1);
    let (channel_id, unsigned_transaction) = match events.remove(0) {
        Event::FundingTransactionReadyForSigning { channel_id, unsigned_transaction, .. } => {
            (channel_id, unsigned_transaction)
        },
        _ => panic!("Expected FundingTransactionReadyForSigning"),
    };

    // Step 7: Sign the transaction using the wallet and provide it back.
    let witnesses = vec![vec![vec![0x30; 71], vec![2; 33]]];
    let signed_tx = node_0.wallet().sign_owned_inputs(unsigned_transaction, &witnesses).unwrap();
    node_0.funding_transaction_signed(&channel_id, &node_id_1, signed_tx).unwrap();

    // Step 8: The initiator sends commitment_signed.
    let msg_events = node_0.get_and_clear_pending_msg_events();
    assert!(!msg_events.is_empty(), "Initiator should send commitment_signed after signing");
    let initiator_commitment_signed = match &msg_events[0] {
        MessageSendEvent::UpdateHTLCs { updates, .. } => updates.commitment_signed[0],
        _ => panic!("Expected UpdateHTLCs with commitment_signed, got {:?}", msg_events[0]),
    };

    // Step 9: Deliver the acceptor's commitment_signed to the initiator (if we got one).
    if let Some(ref cs) = acceptor_commitment_signed {
        node_0.handle_commitment_signed(node_id_1, cs);
    }

    // Deliver the initiator's commitment_signed to the acceptor.
    node_1.handle_commitment_signed(node_id_0, &initiator_commitment_signed);

    // Step 10: The acceptor can now send tx_signatures.
    let msg_events = node_1.get_and_clear_pending_msg_events();
    let mut acceptor_tx_signatures = None;
    for event in msg_events {
        match event {
            MessageSendEvent::UpdateHTLCs { updates, .. } => {
                if acceptor_commitment_signed.is_none() {
                    node_0.handle_commitment_signed(node_id_1, &updates.commitment_signed[0]);
                }
            },
            MessageSendEvent::SendTxSignatures { msg, .. } => {
                acceptor_tx_signatures = Some(msg);
            },
            _ => {},
        }
    }

    let acceptor_tx_sigs = acceptor_tx_signatures
        .expect("Acceptor should send tx_signatures after receiving commitment_signed");

    // Step 11: Deliver acceptor's tx_signatures to initiator.
    node_0.handle_tx_signatures(node_id_1, &acceptor_tx_sigs);

    // Step 12: Initiator sends tx_signatures back.
    let mut msg_events = node_0.get_and_clear_pending_msg_events();
    assert!(!msg_events.is_empty(), "Initiator should send tx_signatures");
    let initiator_tx_signatures = match msg_events.remove(0) {
        MessageSendEvent::SendTxSignatures { msg, .. } => msg,
        other => panic!("Expected SendTxSignatures, got {:?}", other),
    };

    // Deliver to acceptor.
    node_1.handle_tx_signatures(node_id_0, &initiator_tx_signatures);

    // Step 13: Both sides have broadcast the funding transaction.
    assert_eq!(node_0.get_and_clear_added_monitors().len(), 1);
    assert_eq!(node_1.get_and_clear_added_monitors().len(), 1);

    let initiator_txn = node_0.txn_broadcast();
    assert_eq!(initiator_txn.len(), 1, "Initiator should broadcast funding tx");
    let acceptor_txn = node_1.txn_broadcast();
    assert_eq!(acceptor_txn.len(), 1, "Acceptor should broadcast funding tx");

    // Both broadcast the same transaction.
    assert_eq!(initiator_txn[0].compute_txid(), acceptor_txn[0].compute_txid());

    // Drain ChannelPending events from both nodes.
    let events_0 = node_0.get_and_clear_pending_events();
    assert!(
        events_0.iter().any(|e| matches!(e, Event::ChannelPending { .. })),
        "Initiator should have ChannelPending event"
    );
    let events_1 = node_1.get_and_clear_pending_events();
    assert!(
        events_1.iter().any(|e| matches!(e, Event::ChannelPending { .. })),
        "Acceptor should have ChannelPending event"
    );

    // The transaction pays the whole channel value to the funding script, signed.
    let tx = &acceptor_txn[0];
    assert_eq!(tx.output.len(), 1);
    assert_eq!(tx.output[0].value_sats, 100_000);
    assert_eq!(tx.output[0].script_pubkey, funding_script());
    assert_eq!(tx.input.len(), 1);
    assert_eq!(tx.input[0].witness, witnesses[0]);
    assert_eq!(tx.input[0].sequence, 0xFFFF_FFFD);
    assert_eq!(node_0.channel(&channel_id).unwrap().stage, Stage::Broadcast);
    assert_eq!(node_1.channel(&channel_id).unwrap().stage, Stage::Broadcast);
}
