//! Laws of settings, and of what a wallet node makes of them.

use vstd::prelude::*;
use crate::channel::{ConfirmationTarget, Stage};
use crate::config::{channel_config_for, default_channel_config, default_config, Config};
use crate::effects::{one_more_message, quiet, same_elsewhere};
use crate::errors::Error;
use crate::ids::{ChannelId, NodeId};
use crate::items::ContributionView;
use crate::messages::{InboundChannelFunds, MessageView};
use crate::model::NodeView;
use crate::negotiation::{Negotiation, Side};
use crate::wallet_node::{after_opening, contributes, opening_refusal, outbound_config};
use crate::wallet_node::wants_to_contribute;

verus! {

/// Dual funding is off unless it is switched on. The channel settings of a wallet node switch it
/// on exactly if the node's own do, negotiate anchors exactly if the node provides for them, and
/// insist neither on the announcement nor on refusing splices.
pub proof fn law_channel_settings_follow_the_nodes(config: Config)
    ensures
        !default_config().enable_dual_funded_channels,
        !default_channel_config().enable_dual_funded_channels,
        ({
            let c = channel_config_for(config);
            &&& c.enable_dual_funded_channels == config.enable_dual_funded_channels
            &&& c.negotiate_anchors_zero_fee_htlc_tx == (config.anchor_channels_config is Some)
            &&& !c.force_announced_channel_preference
            &&& !c.reject_inbound_splices
            &&& c.announce_for_forwarding == default_config().announce_for_forwarding
        }),
{
}

/// A channel that is opened out of the wallet is announced exactly if the caller asks for it, in
/// its settings and in the proposal; it has the caller's name, value and peer, the settings of the
/// node otherwise, and the inputs that the wallet selects for that value.
pub proof fn law_opening_follows_the_caller(
    n: NodeView,
    config: Config,
    peer: NodeId,
    channel_amount_sats: u64,
    announce_for_forwarding: bool,
    reserve_sats: u64,
    user_channel_id: u128,
    id: ChannelId,
)
    ensures
        ({
            let after = after_opening(
                n,
                config,
                peer,
                channel_amount_sats,
                announce_for_forwarding,
                reserve_sats,
                user_channel_id,
                id,
            );
            let c = after.channels[id];
            let inputs = n.wallet.selected_inputs(channel_amount_sats, reserve_sats);
            &&& same_elsewhere(n, after, id)
            &&& quiet(n, after)
            &&& one_more_message(n, after)
            &&& after.messages.last() matches MessageView::OpenChannelV2 { to, msg } && {
                &&& to == peer
                &&& msg.common_fields.temporary_channel_id == id
                &&& msg.common_fields.funding_satoshis == channel_amount_sats
                &&& msg.common_fields.announce_for_forwarding == announce_for_forwarding
            }
            &&& c.config.announce_for_forwarding == announce_for_forwarding
            &&& c.config.enable_dual_funded_channels == config.enable_dual_funded_channels
            &&& c.config.negotiate_anchors_zero_fee_htlc_tx == (
            config.anchor_channels_config is Some)
            &&& !c.config.force_announced_channel_preference
            &&& !c.config.reject_inbound_splices
            &&& c.stage == Stage::OpenSent && c.is_initiator
            &&& c.counterparty == peer
            &&& c.our_funding_sats == channel_amount_sats
            &&& c.user_channel_id == user_channel_id
            &&& c.confirmation_target == Some(ConfirmationTarget::NonAnchorChannelFee)
            &&& c.to_send.len() == inputs.len()
            &&& forall|k: int|
                0 <= k < inputs.len() ==> #[trigger] c.to_send[k] == ContributionView::Input(
                    inputs[k],
                )
        }),
{
    let after = after_opening(
        n,
        config,
        peer,
        channel_amount_sats,
        announce_for_forwarding,
        reserve_sats,
        user_channel_id,
        id,
    );
    assert(after.messages.drop_last() =~= n.messages);
    assert(outbound_config(config, announce_for_forwarding).announce_for_forwarding
        == announce_for_forwarding);
}

/// A channel is opened exactly if the node runs, the peer is connected, the wallet can fund it, and
/// the node has no reason to refuse it; the first of these that is wanting gives the error.
pub proof fn law_opening_is_refused_for_cause(
    n: NodeView,
    running: bool,
    connected: Result<(), Error>,
    amount: u64,
    reserve_sats: u64,
    id: ChannelId,
)
    ensures
        ({
            let refusal = opening_refusal(n, running, connected, amount, reserve_sats, id);
            let inputs = n.wallet.selected_inputs(amount, reserve_sats);
            &&& refusal is None <==> {
                &&& running
                &&& connected is Ok
                &&& n.wallet.can_select(amount, reserve_sats)
                &&& n.create_refusal(amount, inputs, id) is None
            }
            &&& !running ==> refusal == Some(Error::NotRunning)
            &&& running && connected is Err ==> refusal == Some(connected->Err_0)
            &&& running && connected is Ok && !n.wallet.can_select(amount, reserve_sats)
                ==> refusal == Some(Error::InsufficientFunds)
            &&& running && connected is Ok && n.wallet.can_select(amount, reserve_sats)
                && n.create_refusal(amount, inputs, id) is Some ==> refusal == Some(
                Error::ChannelCreationFailed,
            )
        }),
{
}

/// A node contributes to a channel that a peer proposes exactly if both sides can fund it, its
/// settings name an amount, and its wallet can fund that amount.
pub proof fn law_contribution_follows_the_settings(
    n: NodeView,
    config: Config,
    params: InboundChannelFunds,
    reserve_sats: u64,
)
    ensures
        wants_to_contribute(config, params) <==> params == InboundChannelFunds::DualFunded
            && config.dual_fund_contribution_sats > 0,
        contributes(n, config, params, reserve_sats) <==> {
            &&& params == InboundChannelFunds::DualFunded
            &&& config.dual_fund_contribution_sats > 0
            &&& n.wallet.can_select(config.dual_fund_contribution_sats, reserve_sats)
        },
{
}

/// A message passes the turn to the other side, and says of its sender whether it has completed;
/// what the other side has said last stays.
pub proof fn law_turn_passes(state: Negotiation, complete: bool)
    ensures
        state.turn == Side::Initiator ==> {
            &&& state.after(complete).turn == Side::Acceptor
            &&& state.after(complete).initiator_sent_tx_complete == complete
            &&& state.after(complete).acceptor_sent_tx_complete == state.acceptor_sent_tx_complete
            &&& state.other_is_complete() == state.acceptor_sent_tx_complete
        },
        state.turn == Side::Acceptor ==> {
            &&& state.after(complete).turn == Side::Initiator
            &&& state.after(complete).acceptor_sent_tx_complete == complete
            &&& state.after(complete).initiator_sent_tx_complete
                == state.initiator_sent_tx_complete
            &&& state.other_is_complete() == state.initiator_sent_tx_complete
        },
{
}

} // verus!
