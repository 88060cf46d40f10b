//! Opening channels out of a wallet, and answering requests.

use dual_funding::channel::{ConfirmationTarget, Stage};
use dual_funding::config::{create_dual_funding_config, default_user_config, Config, UserConfig};
use dual_funding::errors::{APIError, Error};
use dual_funding::funding::{create_dummy_funding_input, total_value};
use dual_funding::ids::{ChannelId, NodeId};
use dual_funding::messages::{
    CommonOpenChannelFields, InboundChannelFunds, MessageSendEvent, OpenChannelV2,
};
use dual_funding::node::{create_wallet_funding_input, Node};
use dual_funding::wallet::Wallet;
use dual_funding::wallet_node::{
    choose_acceptance, handle_open_channel_request, open_dual_funded_channel,
    try_open_dual_funded_channel, Acceptance, UserChannelId,
};

fn node_id(n: u8) -> NodeId {
    NodeId { bytes: [n; 33] }
}

fn id() -> ChannelId {
    ChannelId { bytes: [7; 32] }
}

fn funded_node(amounts: &[u64]) -> Node {
    let mut node = Node::new(node_id(1), create_dual_funding_config(), Wallet::new([1; 20]));
    for amount in amounts {
        create_wallet_funding_input(&mut node, *amount);
    }
    node
}

fn config(contribution: u64, trusted: Vec<NodeId>) -> Config {
    let mut config = Config::default();
    config.enable_dual_funded_channels = true;
    config.dual_fund_contribution_sats = contribution;
    config.trusted_peers_0conf = trusted;
    config
}

fn open(
    node: &mut Node, running: bool, connected: Result<(), Error>, amount: u64, reserve: u64,
) -> Result<UserChannelId, Error> {
    assert!(node.wallet().selection_in_range(amount, reserve));
    let config = config(0, vec![]);
    let peer = node_id(2);
    open_dual_funded_channel(
        node, &config, running, connected, peer, amount, true, reserve, 99, id(),
    )
}

#[test]
fn wallet_funds_a_channel() {
    let mut node = funded_node(&[80_000, 40_000, 30_000]);
    assert_eq!(open(&mut node, true, Ok(()), 100_000, 10_000), Ok(UserChannelId(99)));
    let channel = node.channel(&id()).unwrap();
    assert_eq!(channel.stage, Stage::OpenSent);
    assert_eq!(channel.our_funding_sats, 100_000);
    assert_eq!(channel.user_channel_id, 99);
    assert_eq!(channel.to_send.len(), 2);
    assert_eq!(channel.confirmation_target, Some(ConfirmationTarget::NonAnchorChannelFee));
    let mut expected = default_user_config(&config(0, vec![]));
    expected.announce_for_forwarding = true;
    assert_eq!(channel.config, expected);
    let messages = node.get_and_clear_pending_msg_events();
    assert_eq!(messages.len(), 1);
    match &messages[0] {
        MessageSendEvent::SendOpenChannelV2 { node_id: to, msg } => {
            assert_eq!(*to, node_id(2));
            assert_eq!(msg.common_fields.funding_satoshis, 100_000);
            assert!(msg.common_fields.announce_for_forwarding);
        },
        other => panic!("Expected SendOpenChannelV2, got {:?}", other),
    }
}

#[test]
fn selection_suits_the_channel_that_it_is_for() {
    for amount in [1_000, 79_999, 80_000, 80_001, 119_999, 120_000] {
        let mut node = funded_node(&[80_000, 40_000]);
        let inputs = node.wallet().select_funding_inputs(amount, 0).unwrap();
        assert!(total_value(&inputs) >= amount.into());
        assert_eq!(open(&mut node, true, Ok(()), amount, 0), Ok(UserChannelId(99)));
    }
}

#[test]
fn channel_is_not_opened_for_a_reason() {
    let mut node = funded_node(&[80_000]);
    assert_eq!(open(&mut node, false, Ok(()), 50_000, 0), Err(Error::NotRunning));
    let unreachable = Err(Error::ConnectionFailed);
    assert_eq!(open(&mut node, true, unreachable, 50_000, 0), Err(Error::ConnectionFailed));
    assert_eq!(open(&mut node, true, Ok(()), 80_001, 0), Err(Error::InsufficientFunds));
    assert_eq!(open(&mut node, true, Ok(()), 999, 0), Err(Error::ChannelCreationFailed));
    assert!(node.channel(&id()).is_none());
    assert!(node.get_and_clear_pending_msg_events().is_empty());

    let mut disabled = Node::new(node_id(1), UserConfig::default(), Wallet::new([1; 20]));
    create_wallet_funding_input(&mut disabled, 80_000);
    assert_eq!(open(&mut disabled, true, Ok(()), 50_000, 0), Err(Error::ChannelCreationFailed));
}

#[test]
fn refused_creation_gives_its_reason() {
    let mut node = funded_node(&[80_000]);
    let config = config(0, vec![]);
    let small = try_open_dual_funded_channel(
        &mut node, &config, true, Ok(()), node_id(2), 999, true, 0, 99, id(),
    );
    match small {
        Err((Error::ChannelCreationFailed, Some(APIError::APIMisuseError { err }))) => {
            assert_eq!(err, "Channel value must be at least 1000 satoshis")
        },
        other => panic!("Expected a reason, got {:?}", other),
    }
    let poor = try_open_dual_funded_channel(
        &mut node, &config, true, Ok(()), node_id(2), 90_000, true, 0, 99, id(),
    );
    assert!(matches!(poor, Err((Error::InsufficientFunds, None))));
}

#[test]
fn answer_depends_on_settings_and_wallet() {
    let dual = InboundChannelFunds::DualFunded;
    let single = InboundChannelFunds::PushMsat(0);
    let peer = node_id(2);
    let inputs = || Ok(vec![create_dummy_funding_input(9_000)]);
    let generous = config(5_000, vec![peer]);
    match choose_acceptance(&generous, &peer, dual, inputs()) {
        Acceptance::WithContribution(inputs) => assert_eq!(total_value(&inputs), 9_000),
        other => panic!("Expected a contribution, got {:?}", other),
    }
    // Without inputs it falls back to no contribution, even for a trusted peer.
    let none = choose_acceptance(&generous, &peer, dual, Ok(vec![]));
    assert!(matches!(none, Acceptance::Plain));
    let failed = choose_acceptance(&generous, &peer, dual, Err(Error::InsufficientFunds));
    assert!(matches!(failed, Acceptance::Plain));
    // A channel that the peer funds alone gets no contribution.
    let trusted = choose_acceptance(&generous, &peer, single, inputs());
    assert!(matches!(trusted, Acceptance::Trusted0conf));
    let untrusted = choose_acceptance(&config(5_000, vec![]), &peer, single, inputs());
    assert!(matches!(untrusted, Acceptance::Plain));
    let trusted = choose_acceptance(&config(0, vec![peer]), &peer, dual, inputs());
    assert!(matches!(trusted, Acceptance::Trusted0conf));
    let plain = choose_acceptance(&config(0, vec![]), &peer, dual, inputs());
    assert!(matches!(plain, Acceptance::Plain));
}

fn answer(node: &mut Node, config: &Config, peer: NodeId) -> Result<(), APIError> {
    let contribution = config.dual_fund_contribution_sats;
    assert!(node.wallet().selection_in_range(contribution, 1_000));
    let params = InboundChannelFunds::DualFunded;
    handle_open_channel_request(node, config, &id(), &peer, params, 43, None, 1_000)
}

fn requested(node: &mut Node) {
    let common_fields = CommonOpenChannelFields {
        temporary_channel_id: id(),
        funding_satoshis: 100_000,
        announce_for_forwarding: false,
    };
    node.handle_open_channel_v2(node_id(2), &OpenChannelV2 { common_fields });
}

#[test]
fn request_is_answered_with_a_contribution() {
    let mut node = funded_node(&[20_000, 10_000, 10_000]);
    requested(&mut node);
    answer(&mut node, &config(20_000, vec![node_id(2)]), node_id(2)).unwrap();
    let channel = node.channel(&id()).unwrap();
    assert_eq!(channel.our_funding_sats, 20_000);
    assert_eq!(channel.to_send.len(), 2);
    assert_eq!(channel.user_channel_id, 43);
    assert!(!channel.zero_conf);
}

#[test]
fn request_is_answered_without_funds() {
    let mut node = funded_node(&[10_000]);
    requested(&mut node);
    answer(&mut node, &config(20_000, vec![node_id(2)]), node_id(2)).unwrap();
    let channel = node.channel(&id()).unwrap();
    assert_eq!(channel.our_funding_sats, 0);
    assert!(channel.to_send.is_empty());
    assert!(!channel.zero_conf);
}

#[test]
fn request_of_a_trusted_peer_is_used_unconfirmed() {
    let mut node = funded_node(&[10_000]);
    requested(&mut node);
    answer(&mut node, &config(0, vec![node_id(2)]), node_id(2)).unwrap();
    assert!(node.channel(&id()).unwrap().zero_conf);
    assert_eq!(node.channel(&id()).unwrap().our_funding_sats, 0);
}

#[test]
fn answer_needs_a_request() {
    let mut node = funded_node(&[50_000]);
    requested(&mut node);
    for settings in [config(20_000, vec![]), config(0, vec![]), config(0, vec![node_id(3)])] {
        let result = answer(&mut node, &settings, node_id(3));
        assert!(matches!(result, Err(APIError::ChannelUnavailable { .. })));
    }
    assert_eq!(node.channel(&id()).unwrap().stage, Stage::Requested);
}
