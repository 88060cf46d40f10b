//! Settings of a node and of its channels.

use vstd::prelude::*;
use crate::ids::NodeId;

verus! {

/// What a node asks of its channels.
#[derive(Clone, Copy, Debug, PartialEq, Eq, Structural)]
pub struct UserConfig {
    /// Open and accept dual-funded (v2) channels.
    pub enable_dual_funded_channels: bool,
    /// Announce the channel, so that it can forward payments of others.
    pub announce_for_forwarding: bool,
    /// Refuse channels whose announcement differs from what this node prefers.
    pub force_announced_channel_preference: bool,
    /// Negotiate anchor outputs.
    pub negotiate_anchors_zero_fee_htlc_tx: bool,
    /// Refuse splices that the counterparty proposes.
    pub reject_inbound_splices: bool,
}

/// The settings that a node has unless told otherwise. Dual funding is off.
pub open spec fn default_config() -> UserConfig {
    UserConfig {
        enable_dual_funded_channels: false,
        announce_for_forwarding: false,
        force_announced_channel_preference: true,
        negotiate_anchors_zero_fee_htlc_tx: false,
        reject_inbound_splices: true,
    }
}

impl Default for UserConfig {
    fn default() -> (c: UserConfig)
        ensures
            c == default_config(),
    {
        UserConfig {
            enable_dual_funded_channels: false,
            announce_for_forwarding: false,
            force_announced_channel_preference: true,
            negotiate_anchors_zero_fee_htlc_tx: false,
            reject_inbound_splices: true,
        }
    }
}

/// The settings of a channel under test, unless told otherwise: the default ones.
pub open spec fn default_channel_config() -> UserConfig {
    default_config()
}

/// Makes the settings of a channel under test.
pub fn test_default_channel_config() -> (c: UserConfig)
    ensures
        c == default_channel_config(),
{
    UserConfig::default()
}

/// The settings of a channel under test with dual funding switched on, and nothing else changed.
pub fn create_dual_funding_config() -> (c: UserConfig)
    ensures
        c == (UserConfig { enable_dual_funded_channels: true, ..default_channel_config() }),
{
    let mut config = test_default_channel_config();
    config.enable_dual_funded_channels = true;
    config
}

/// How a wallet provides for anchor channels.
#[derive(Clone, Copy, Debug, PartialEq, Eq, Structural)]
pub struct AnchorChannelsConfig {
    /// The amount that is kept back for each anchor channel.
    pub per_channel_reserve_sats: u64,
}

/// Settings of a wallet node.
#[derive(Debug)]
pub struct Config {
    /// If set, the node advertises support for and accepts dual-funded (v2) channel opens.
    /// This allows both parties to contribute funds to a channel.
    pub enable_dual_funded_channels: bool,
    /// What the node contributes to a dual-funded channel that a peer opens.
    pub dual_fund_contribution_sats: u64,
    /// Set if the node negotiates anchor channels.
    pub anchor_channels_config: Option<AnchorChannelsConfig>,
    /// Peers whose channels are used before they are confirmed.
    pub trusted_peers_0conf: Vec<NodeId>,
}

impl Default for Config {
    fn default() -> (c: Config)
        ensures
            !c.enable_dual_funded_channels,
            c.dual_fund_contribution_sats == 0,
            c.anchor_channels_config is None,
            c.trusted_peers_0conf@ == Seq::<NodeId>::empty(),
    {
        Config {
            enable_dual_funded_channels: false,
            dual_fund_contribution_sats: 0,
            anchor_channels_config: None,
            trusted_peers_0conf: Vec::new(),
        }
    }
}

/// The channel settings that a wallet node's settings call for.
pub open spec fn channel_config_for(config: Config) -> UserConfig {
    UserConfig {
        enable_dual_funded_channels: config.enable_dual_funded_channels,
        force_announced_channel_preference: false,
        negotiate_anchors_zero_fee_htlc_tx: config.anchor_channels_config is Some,
        reject_inbound_splices: false,
        ..default_config()
    }
}

/// Derives the channel settings of a wallet node from its own.
pub fn default_user_config(config: &Config) -> (c: UserConfig)
    ensures
        c == channel_config_for(*config),
{
    let mut user_config = UserConfig::default();
    user_config.force_announced_channel_preference = false;
    user_config.negotiate_anchors_zero_fee_htlc_tx = config.anchor_channels_config.is_some();
    user_config.reject_inbound_splices = false;
    user_config.enable_dual_funded_channels = config.enable_dual_funded_channels;
    user_config
}

impl Config {
    /// Whether channels of `peer` are used before they are confirmed.
    pub fn trusts_for_0conf(&self, peer: &NodeId) -> (r: bool)
        ensures
            r == self.trusted_peers_0conf@.contains(*peer),
    {
        let mut k: usize = 0;
        while k < self.trusted_peers_0conf.len()
            invariant
                k <= self.trusted_peers_0conf.len(),
                forall|j: int| 0 <= j < k ==> self.trusted_peers_0conf@[j] != *peer,
            decreases self.trusted_peers_0conf.len() - k,
        {
            if self.trusted_peers_0conf[k] == *peer {
                return true;
            }
            k = k + 1;
        }
        false
    }
}

} // verus!
