//! Turns of a negotiation.

use dual_funding::channel::{ConfirmationTarget, Stage};
use dual_funding::config::create_dual_funding_config;
use dual_funding::funding::create_dummy_funding_input;
use dual_funding::ids::{ChannelId, NodeId};
use dual_funding::messages::{
    AcceptChannelV2, ErrorReason, MessageSendEvent, TxAddInput, TxAddOutput, TxComplete,
};
use dual_funding::negotiation::{
    deliver, drive_interactive_tx_negotiation, pass_message, try_drive_interactive_tx_negotiation,
    Negotiation, Side, TurnError,
};
use dual_funding::node::Node;
use dual_funding::tx::TxOut;
use dual_funding::wallet::Wallet;

fn node_id(n: u8) -> NodeId {
    NodeId { bytes: [n; 33] }
}

fn id() -> ChannelId {
    ChannelId { bytes: [7; 32] }
}

fn complete() -> MessageSendEvent {
    MessageSendEvent::SendTxComplete { node_id: node_id(2), msg: TxComplete { channel_id: id() } }
}

fn add_output() -> MessageSendEvent {
    let output = TxOut { value_sats: 1, script_pubkey: vec![] };
    let msg = TxAddOutput { channel_id: id(), output };
    MessageSendEvent::SendTxAddOutput { node_id: node_id(2), msg }
}

fn add_input() -> MessageSendEvent {
    let prevtx = create_dummy_funding_input(9).into_prevtx();
    let msg = TxAddInput { channel_id: id(), prevtx, prevtx_out: 0 };
    MessageSendEvent::SendTxAddInput { node_id: node_id(2), msg }
}

#[test]
fn negotiation_ends_with_two_completions_in_a_row() {
    let mut state = Negotiation::new();
    assert_eq!(state.turn, Side::Initiator);
    assert_eq!(state.take_turn(&vec![add_input()]), Ok(false));
    assert_eq!(state.turn, Side::Acceptor);
    assert_eq!(state.take_turn(&vec![complete()]), Ok(false));
    // The acceptor's completion is void once something is added after it.
    assert_eq!(state.take_turn(&vec![add_output()]), Ok(false));
    assert_eq!(state.take_turn(&vec![add_input()]), Ok(false));
    assert_eq!(state.take_turn(&vec![complete()]), Ok(false));
    assert_eq!(state.take_turn(&vec![complete()]), Ok(true));

    let mut state = Negotiation::new();
    assert_eq!(state.take_turn(&vec![add_input()]), Ok(false));
    assert_eq!(state.take_turn(&vec![complete()]), Ok(false));
    assert_eq!(state.take_turn(&vec![complete()]), Ok(true));
}

#[test]
fn turn_needs_exactly_one_message_of_the_negotiation() {
    let mut state = Negotiation::new();
    let before = state;
    assert_eq!(state.take_turn(&vec![]), Err(TurnError::NotOneMessage));
    assert_eq!(state.take_turn(&vec![complete(), complete()]), Err(TurnError::NotOneMessage));
    let msg = AcceptChannelV2 { temporary_channel_id: id(), funding_satoshis: 0 };
    let other = MessageSendEvent::SendAcceptChannelV2 { node_id: node_id(2), msg };
    assert_eq!(state.take_turn(&vec![other]), Err(TurnError::UnexpectedMessage));
    let error = MessageSendEvent::HandleError {
        node_id: node_id(2),
        reason: ErrorReason::InvalidInput,
    };
    assert_eq!(state.take_turn(&vec![error]), Err(TurnError::UnexpectedMessage));
    assert_eq!(state, before);
}

/// Two nodes that are about to negotiate.
fn ready(ours: &[u64], contribution: u64, theirs: &[u64]) -> (Node, Node) {
    let mut a = Node::new(node_id(1), create_dual_funding_config(), Wallet::new([1; 20]));
    let mut b = Node::new(node_id(2), create_dual_funding_config(), Wallet::new([2; 20]));
    let target = ConfirmationTarget::AnchorChannelFee;
    let inputs = ours.iter().map(|v| create_dummy_funding_input(*v)).collect();
    a.create_v2_channel(node_id(2), 1_000, inputs, 1, None, target, id()).unwrap();
    match a.get_and_clear_pending_msg_events().remove(0) {
        MessageSendEvent::SendOpenChannelV2 { msg, .. } => {
            b.handle_open_channel_v2(node_id(1), &msg)
        },
        other => panic!("Expected SendOpenChannelV2, got {:?}", other),
    }
    let inputs = theirs.iter().map(|v| create_dummy_funding_input(*v)).collect();
    b.accept_inbound_channel_with_contribution(&id(), &node_id(1), 2, contribution, inputs, None)
        .unwrap();
    match b.get_and_clear_pending_msg_events().remove(0) {
        MessageSendEvent::SendAcceptChannelV2 { msg, .. } => {
            a.handle_accept_channel_v2(node_id(2), &msg, vec![0x51])
        },
        other => panic!("Expected SendAcceptChannelV2, got {:?}", other),
    }
    (a, b)
}

fn pass(from: &mut Node, to: &mut Node) -> MessageSendEvent {
    let mut messages = from.get_and_clear_pending_msg_events();
    assert_eq!(messages.len(), 1);
    deliver(to, from.get_our_node_id(), &messages[0]);
    messages.remove(0)
}

#[test]
fn sides_speak_in_turns() {
    let (mut a, mut b) = ready(&[1_001, 1_002], 500, &[501, 502, 503, 504]);
    let mut transcript = String::new();
    for turn in 0..9 {
        let message = if turn % 2 == 0 { pass(&mut a, &mut b) } else { pass(&mut b, &mut a) };
        transcript.push(match message {
            MessageSendEvent::SendTxAddInput { .. } => 'i',
            MessageSendEvent::SendTxAddOutput { .. } => 'o',
            MessageSendEvent::SendTxComplete { .. } => 'c',
            other => panic!("Unexpected message {:?}", other),
        });
    }
    // Initiator: input, input, output, completion, completion. Acceptor: four inputs; it
    // completes last, and with it the negotiation is over.
    assert_eq!(transcript, "iiiioicic");
    pass(&mut b, &mut a);
    for node in [&a, &b] {
        let channel = node.channel(&id()).unwrap();
        assert_eq!(channel.stage, Stage::Signing);
        assert_eq!(channel.owners, vec![true, false, true, false, false, false]);
        assert_eq!(channel.tx.output[0].value_sats, 1_500);
    }
    assert_eq!(
        a.channel(&id()).unwrap().tx.compute_txid(),
        b.channel(&id()).unwrap().tx.compute_txid()
    );
}

#[test]
fn negotiation_can_be_driven_from_any_turn_of_the_initiator() {
    for turns in [0, 2, 4, 6] {
        let (mut a, mut b) = ready(&[1_001, 1_002], 500, &[501, 502, 503, 504]);
        for _ in 0..turns / 2 {
            pass(&mut a, &mut b);
            pass(&mut b, &mut a);
        }
        drive_interactive_tx_negotiation(&mut a, &mut b);
        for node in [&a, &b] {
            let channel = node.channel(&id()).unwrap();
            assert_eq!(channel.stage, Stage::Signing);
            assert_eq!(channel.owners, vec![true, false, true, false, false, false]);
        }
    }
}

#[test]
fn driver_reports_a_turn_that_cannot_be_taken() {
    // Nothing is queued.
    let (mut a, mut b) = ready(&[1_001], 0, &[]);
    a.get_and_clear_pending_msg_events();
    let result = try_drive_interactive_tx_negotiation(&mut a, &mut b);
    assert_eq!(result, Err(TurnError::NotOneMessage));

    // The acceptor refuses the second input, which spends the same output as the first.
    let (mut a, mut b) = ready(&[1_001, 1_001], 0, &[]);
    let result = try_drive_interactive_tx_negotiation(&mut a, &mut b);
    assert_eq!(result, Err(TurnError::UnexpectedMessage));
    assert_eq!(b.channel(&id()).unwrap().items.len(), 1);
    assert_eq!(b.channel(&id()).unwrap().stage, Stage::Negotiating);
    assert!(a.get_and_clear_pending_msg_events().is_empty());

    let (mut a, mut b) = ready(&[1_001, 1_002], 500, &[501]);
    assert_eq!(try_drive_interactive_tx_negotiation(&mut a, &mut b), Ok(()));
    assert_eq!(a.channel(&id()).unwrap().stage, Stage::Signing);
}

#[test]
fn turn_that_cannot_be_taken_leaves_the_listener_alone() {
    let (mut a, mut b) = ready(&[1_001], 0, &[]);
    let mut state = Negotiation::new();
    // The acceptor has nothing queued: it is not its turn.
    assert_eq!(pass_message(&mut state, &mut b, &mut a), Err(TurnError::NotOneMessage));
    assert_eq!(state, Negotiation::new());
    assert_eq!(pass_message(&mut state, &mut a, &mut b), Ok(false));
    assert_eq!(state.turn, Side::Acceptor);
    assert_eq!(b.channel(&id()).unwrap().items.len(), 1);
}

#[test]
fn initiator_that_has_more_to_add_goes_on_alone() {
    let (mut a, mut b) = ready(&[400, 401, 402], 0, &[]);
    drive_interactive_tx_negotiation(&mut a, &mut b);
    let channel = b.channel(&id()).unwrap();
    assert_eq!(channel.owners, vec![true, true, true]);
    assert_eq!(channel.tx.output.len(), 1);
    assert_eq!(channel.tx.output[0].value_sats, 1_000);
    // The acceptor has nothing to sign.
    assert!(channel.holder_signed);
    assert!(!a.channel(&id()).unwrap().holder_signed);
}
