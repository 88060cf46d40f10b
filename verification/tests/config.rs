//! Settings.

use dual_funding::config::{
    create_dual_funding_config, default_user_config, test_default_channel_config,
    AnchorChannelsConfig, Config, UserConfig,
};
use dual_funding::ids::NodeId;

#[test]
fn dual_funding_is_off_by_default() {
    assert!(!UserConfig::default().enable_dual_funded_channels);
    let config = Config::default();
    assert!(!config.enable_dual_funded_channels);
    assert_eq!(config.dual_fund_contribution_sats, 0);
    assert!(config.anchor_channels_config.is_none());
    assert!(config.trusted_peers_0conf.is_empty());
    assert!(!default_user_config(&config).enable_dual_funded_channels);
}

#[test]
fn dual_funding_config_changes_one_setting() {
    let config = create_dual_funding_config();
    assert!(config.enable_dual_funded_channels);
    let mut expected = test_default_channel_config();
    expected.enable_dual_funded_channels = true;
    assert_eq!(config, expected);
}

#[test]
fn channel_settings_follow_the_node_settings() {
    let mut config = Config::default();
    config.enable_dual_funded_channels = true;
    let without_anchors = default_user_config(&config);
    assert!(without_anchors.enable_dual_funded_channels);
    assert!(!without_anchors.force_announced_channel_preference);
    assert!(!without_anchors.negotiate_anchors_zero_fee_htlc_tx);
    assert!(!without_anchors.reject_inbound_splices);

    config.anchor_channels_config = Some(AnchorChannelsConfig { per_channel_reserve_sats: 25_000 });
    assert!(default_user_config(&config).negotiate_anchors_zero_fee_htlc_tx);
}

#[test]
fn only_listed_peers_are_trusted() {
    let friend = NodeId { bytes: [2; 33] };
    let other_friend = NodeId { bytes: [4; 33] };
    let stranger = NodeId { bytes: [3; 33] };
    let mut config = Config::default();
    assert!(!config.trusts_for_0conf(&friend));
    config.trusted_peers_0conf = vec![friend, other_friend];
    assert!(config.trusts_for_0conf(&friend));
    assert!(config.trusts_for_0conf(&other_friend));
    assert!(!config.trusts_for_0conf(&stranger));
}
