//! What a node with a wallet does to open dual-funded channels and to answer requests for them.

use vstd::prelude::*;
use crate::channel::ConfirmationTarget;
use crate::config::{channel_config_for, default_user_config, Config, UserConfig};
use crate::errors::{APIError, Error};
use crate::funding::{total_sats, FundingTxInput};
use crate::ids::{ChannelId, NodeId};
use crate::messages::InboundChannelFunds;
use crate::model::NodeView;
use crate::node::Node;
use crate::views::{group_view_all, view_all};

verus! {

broadcast use group_view_all;

/// The name that the user of a node has for a channel.
#[derive(Clone, Copy, Debug, PartialEq, Eq, Structural)]
pub struct UserChannelId(pub u128);

/// The settings of a channel that the node opens.
pub open spec fn outbound_config(config: Config, announce_for_forwarding: bool) -> UserConfig {
    UserConfig { announce_for_forwarding, ..channel_config_for(config) }
}

/// Why a channel is not opened.
pub open spec fn opening_refusal(
    node: NodeView,
    running: bool,
    connected: Result<(), Error>,
    channel_amount_sats: u64,
    cur_anchor_reserve_sats: u64,
    temporary_channel_id: ChannelId,
) -> Option<Error> {
    if !running {
        Some(Error::NotRunning)
    } else if connected is Err {
        Some(connected->Err_0)
    } else if !node.wallet.can_select(channel_amount_sats, cur_anchor_reserve_sats) {
        Some(Error::InsufficientFunds)
    } else if node.create_refusal(
        channel_amount_sats,
        node.wallet.selected_inputs(channel_amount_sats, cur_anchor_reserve_sats),
        temporary_channel_id,
    ) is Some {
        Some(Error::ChannelCreationFailed)
    } else {
        None
    }
}

/// The node after it has opened a channel out of its wallet.
pub open spec fn after_opening(
    node: NodeView,
    config: Config,
    peer: NodeId,
    channel_amount_sats: u64,
    announce_for_forwarding: bool,
    cur_anchor_reserve_sats: u64,
    user_channel_id: u128,
    temporary_channel_id: ChannelId,
) -> NodeView {
    node.after_create(
        peer,
        channel_amount_sats,
        node.wallet.selected_inputs(channel_amount_sats, cur_anchor_reserve_sats),
        user_channel_id,
        Some(outbound_config(config, announce_for_forwarding)),
        ConfirmationTarget::NonAnchorChannelFee,
        temporary_channel_id,
    )
}

/// As [`open_dual_funded_channel`]. Where the node refused to create the channel, its reason
/// stands beside the error.
pub fn try_open_dual_funded_channel(
    node: &mut Node,
    config: &Config,
    running: bool,
    connected: Result<(), Error>,
    peer: NodeId,
    channel_amount_sats: u64,
    announce_for_forwarding: bool,
    cur_anchor_reserve_sats: u64,
    user_channel_id: u128,
    temporary_channel_id: ChannelId,
) -> (r: Result<UserChannelId, (Error, Option<APIError>)>)
    requires
        old(node).wf(),
        running && connected is Ok ==> old(node)@.wallet.selection_fits(
            channel_amount_sats,
            cur_anchor_reserve_sats,
        ),
    ensures
        final(node).wf(),
        ({
            let wallet = old(node)@.wallet;
            let refusal = opening_refusal(
                old(node)@,
                running,
                connected,
                channel_amount_sats,
                cur_anchor_reserve_sats,
                temporary_channel_id,
            );
            match r {
                Ok(id) => {
                    &&& refusal is None
                    &&& id.0 == user_channel_id
                    &&& final(node)@ == after_opening(
                        old(node)@,
                        *config,
                        peer,
                        channel_amount_sats,
                        announce_for_forwarding,
                        cur_anchor_reserve_sats,
                        user_channel_id,
                        temporary_channel_id,
                    )
                },
                Err((e, reason)) => {
                    &&& refusal == Some(e)
                    &&& final(node)@ == old(node)@
                    &&& match reason {
                        Some(reason) => reason matches APIError::APIMisuseError { err } && old(
                            node,
                        )@.create_refusal(
                            channel_amount_sats,
                            wallet.selected_inputs(channel_amount_sats, cur_anchor_reserve_sats),
                            temporary_channel_id,
                        ) == Some(err@),
                        None => !running || connected is Err || !wallet.can_select(
                            channel_amount_sats,
                            cur_anchor_reserve_sats,
                        ),
                    }
                },
            }
        }),
{
    if !running {
        return Err((Error::NotRunning, None));
    }
    if let Err(e) = connected {
        return Err((e, None));
    }
    let selection = node.wallet().select_funding_inputs(
        channel_amount_sats,
        cur_anchor_reserve_sats,
    );
    let funding_inputs = match selection {
        Ok(inputs) => inputs,
        Err(e) => {
            return Err((e, None));
        },
    };
    let mut user_config = default_user_config(config);
    user_config.announce_for_forwarding = announce_for_forwarding;
    match node.create_v2_channel(
        peer,
        channel_amount_sats,
        funding_inputs,
        user_channel_id,
        Some(user_config),
        ConfirmationTarget::NonAnchorChannelFee,
        temporary_channel_id,
    ) {
        Ok(_) => Ok(UserChannelId(user_channel_id)),
        Err(reason) => Err((Error::ChannelCreationFailed, Some(reason))),
    }
}

/// Opens a dual-funded (v2) channel to `peer`, funded out of the node's wallet. `running` says
/// whether the node runs, and `connected` is what came of connecting to the peer;
/// `user_channel_id` and `temporary_channel_id` are fresh random names, and
/// `cur_anchor_reserve_sats` is what the wallet keeps back for its anchor channels.
pub fn open_dual_funded_channel(
    node: &mut Node,
    config: &Config,
    running: bool,
    connected: Result<(), Error>,
    peer: NodeId,
    channel_amount_sats: u64,
    announce_for_forwarding: bool,
    cur_anchor_reserve_sats: u64,
    user_channel_id: u128,
    temporary_channel_id: ChannelId,
) -> (r: Result<UserChannelId, Error>)
    requires
        old(node).wf(),
        running && connected is Ok ==> old(node)@.wallet.selection_fits(
            channel_amount_sats,
            cur_anchor_reserve_sats,
        ),
    ensures
        final(node).wf(),
        ({
            let refusal = opening_refusal(
                old(node)@,
                running,
                connected,
                channel_amount_sats,
                cur_anchor_reserve_sats,
                temporary_channel_id,
            );
            match r {
                Ok(id) => {
                    &&& refusal is None
                    &&& id.0 == user_channel_id
                    &&& final(node)@ == after_opening(
                        old(node)@,
                        *config,
                        peer,
                        channel_amount_sats,
                        announce_for_forwarding,
                        cur_anchor_reserve_sats,
                        user_channel_id,
                        temporary_channel_id,
                    )
                },
                Err(e) => refusal == Some(e) && final(node)@ == old(node)@,
            }
        }),
{
    match try_open_dual_funded_channel(
        node,
        config,
        running,
        connected,
        peer,
        channel_amount_sats,
        announce_for_forwarding,
        cur_anchor_reserve_sats,
        user_channel_id,
        temporary_channel_id,
    ) {
        Ok(id) => Ok(id),
        Err((e, _)) => Err(e),
    }
}

/// How a request for a channel is answered.
#[derive(Debug)]
pub enum Acceptance {
    /// Without a contribution.
    Plain,
    /// Without a contribution, to be used before it is confirmed.
    Trusted0conf,
    /// With a contribution out of these inputs.
    WithContribution(Vec<FundingTxInput>),
}

/// The node contributes to a channel that is funded like this, if it can.
pub open spec fn wants_to_contribute(config: Config, params: InboundChannelFunds) -> bool {
    params is DualFunded && config.dual_fund_contribution_sats > 0
}

/// Decides how to answer a request, for what a selection of inputs for the contribution gives.
pub fn choose_acceptance(
    config: &Config,
    counterparty: &NodeId,
    params: InboundChannelFunds,
    selection: Result<Vec<FundingTxInput>, Error>,
) -> (r: Acceptance)
    ensures
        match r {
            Acceptance::WithContribution(inputs) => {
                &&& wants_to_contribute(*config, params)
                &&& selection == Ok::<Vec<FundingTxInput>, Error>(inputs)
                &&& inputs.len() > 0
            },
            Acceptance::Plain => if wants_to_contribute(*config, params) {
                selection matches Ok(inputs) ==> inputs.len() == 0
            } else {
                !config.trusted_peers_0conf@.contains(*counterparty)
            },
            Acceptance::Trusted0conf => {
                &&& !wants_to_contribute(*config, params)
                &&& config.trusted_peers_0conf@.contains(*counterparty)
            },
        },
{
    let is_dual_funded = match params {
        InboundChannelFunds::DualFunded => true,
        InboundChannelFunds::PushMsat(_) => false,
    };
    if is_dual_funded && config.dual_fund_contribution_sats > 0 {
        match selection {
            Ok(inputs) => if inputs.len() == 0 {
                Acceptance::Plain
            } else {
                Acceptance::WithContribution(inputs)
            },
            Err(_) => Acceptance::Plain,
        }
    } else if config.trusts_for_0conf(counterparty) {
        Acceptance::Trusted0conf
    } else {
        Acceptance::Plain
    }
}

/// The node contributes to a channel that is funded like this: it wants to, and its wallet can
/// cover the amount.
pub open spec fn contributes(
    node: NodeView,
    config: Config,
    params: InboundChannelFunds,
    reserve_sats: u64,
) -> bool {
    wants_to_contribute(config, params) && node.wallet.can_select(
        config.dual_fund_contribution_sats,
        reserve_sats,
    )
}

/// Answers the request of `counterparty` for a channel.
pub fn handle_open_channel_request(
    node: &mut Node,
    config: &Config,
    temporary_channel_id: &ChannelId,
    counterparty: &NodeId,
    params: InboundChannelFunds,
    user_channel_id: u128,
    override_config: Option<UserConfig>,
    cur_anchor_reserve_sats: u64,
) -> (r: Result<(), APIError>)
    requires
        old(node).wf(),
        wants_to_contribute(*config, params) ==> old(node)@.wallet.selection_fits(
            config.dual_fund_contribution_sats,
            cur_anchor_reserve_sats,
        ),
    ensures
        final(node).wf(),
        ({
            let before = old(node)@;
            let contributing = contributes(before, *config, params, cur_anchor_reserve_sats);
            let requested = before.has_request(*temporary_channel_id, *counterparty);
            let sats = if contributing {
                config.dual_fund_contribution_sats
            } else {
                0
            };
            let inputs = if contributing {
                before.wallet.selected_inputs(sats, cur_anchor_reserve_sats)
            } else {
                Seq::empty()
            };
            let zero_conf = !wants_to_contribute(*config, params)
                && config.trusted_peers_0conf@.contains(*counterparty);
            match r {
                Ok(_) => {
                    &&& requested
                    &&& total_sats(inputs) >= sats
                    &&& final(node)@ == before.after_accept(
                        *temporary_channel_id,
                        user_channel_id,
                        sats,
                        inputs,
                        zero_conf,
                        override_config,
                    )
                },
                Err(APIError::ChannelUnavailable { err }) => {
                    &&& !requested
                    &&& err@ == "There is no such channel request"@
                    &&& final(node)@ == before
                },
                Err(APIError::APIMisuseError { err }) => {
                    &&& requested
                    &&& total_sats(inputs) < sats
                    &&& err@ == "Funding inputs do not cover the contribution"@
                    &&& final(node)@ == before
                },
            }
        }),
{
    let contribution = config.dual_fund_contribution_sats;
    let is_dual_funded = match params {
        InboundChannelFunds::DualFunded => true,
        InboundChannelFunds::PushMsat(_) => false,
    };
    let selection = if is_dual_funded && contribution > 0 {
        node.wallet().select_funding_inputs(contribution, cur_anchor_reserve_sats)
    } else {
        Err(Error::InsufficientFunds)
    };
    proof {
        if selection is Ok {
            let selected = node@.wallet.selected(contribution, cur_anchor_reserve_sats);
            assert(view_all(selection->Ok_0@).len() == selected.len());
            assert(selected.len() > 0);
        }
    }
    match choose_acceptance(config, counterparty, params, selection) {
        Acceptance::WithContribution(inputs) => node.accept_inbound_channel_with_contribution(
            temporary_channel_id,
            counterparty,
            user_channel_id,
            contribution,
            inputs,
            override_config,
        ),
        Acceptance::Trusted0conf => node.accept_inbound_channel_from_trusted_peer_0conf(
            temporary_channel_id,
            counterparty,
            user_channel_id,
            override_config,
        ),
        Acceptance::Plain => node.accept_inbound_channel(
            temporary_channel_id,
            counterparty,
            user_channel_id,
            override_config,
        ),
    }
}

} // verus!
