//! What each call on a node does to it, as functions from state to state.

use vstd::prelude::*;
use crate::channel::{kept, lists_lost, ChannelView, ClosedChannel, ConfirmationTarget, Stage};
use crate::channel::MIN_CHANNEL_SATS;
use crate::config::UserConfig;
use crate::funding::{total_sats, FundingTxInputView};
use crate::ids::{lex_before, ChannelId, NodeId, OutPoint, Txid};
use crate::bitcoin_calls::{is_witness_script, txid_of};
use crate::items::{funding_tx, input_sats, item_of, owners_of, spends};
use crate::items::{ContributionView, NegotiatedView, TxItemView};
use crate::messages::{AcceptChannelV2, CommitmentSigned, CommonOpenChannelFields, OpenChannelV2};
use crate::messages::{ErrorReason, EventView, InboundChannelFunds, MessageView};
use crate::tx::{TransactionView, TxOutView, TX_LOCK_TIME, TX_VERSION};
use crate::wallet::WalletView;
use crate::witness::{all_signed, count_owned, with_witnesses, witnesses_of};

verus! {

/// What a node holds.
pub struct NodeView {
    pub id: NodeId,
    pub config: UserConfig,
    pub wallet: WalletView,
    pub channels: Map<ChannelId, ChannelView>,
    /// Messages that wait to be sent, in order.
    pub messages: Seq<MessageView>,
    /// Events that wait for the user, in order.
    pub events: Seq<EventView>,
    /// Transactions that were broadcast, in order.
    pub broadcast: Seq<TransactionView>,
    /// Channels for which a monitor was added, in order.
    pub monitors: Seq<ChannelId>,
}

/// A transaction with nothing in it.
pub open spec fn empty_tx() -> TransactionView {
    TransactionView {
        version: TX_VERSION,
        lock_time: TX_LOCK_TIME,
        input: Seq::empty(),
        output: Seq::empty(),
    }
}

/// `inputs` as contributions.
pub open spec fn as_contributions(inputs: Seq<FundingTxInputView>) -> Seq<ContributionView> {
    Seq::new(inputs.len(), |k: int| ContributionView::Input(inputs[k]))
}

/// The message that puts `contribution` into the transaction of channel `id`.
pub open spec fn add_message(
    to: NodeId,
    id: ChannelId,
    contribution: ContributionView,
) -> MessageView {
    match contribution {
        ContributionView::Input(input) => MessageView::TxAddInput {
            to,
            channel_id: id,
            prevtx: input.prevtx,
            prevtx_out: input.outpoint.vout,
        },
        ContributionView::Output(output) => MessageView::TxAddOutput { to, channel_id: id, output },
    }
}

/// The input that a message with `prevtx`, identified by `txid`, and `vout` adds.
pub open spec fn received_input(prevtx: TransactionView, vout: u32, txid: Txid) -> TxItemView {
    TxItemView::Input {
        outpoint: OutPoint { txid, vout },
        value_sats: prevtx.output[vout as int].value_sats,
    }
}

/// A message may add output `vout` of `prevtx`, identified by `txid`, to a transaction with
/// `items` as an input: there is such an output, a witness unlocks it, and no input spends it
/// yet.
pub open spec fn may_add_input(
    items: Seq<NegotiatedView>,
    prevtx: TransactionView,
    vout: u32,
    txid: Txid,
) -> bool {
    &&& vout < prevtx.output.len()
    &&& is_witness_script(prevtx.output[vout as int].script_pubkey)
    &&& !spends(items, OutPoint { txid, vout })
}

/// The message that carries a commitment signature for channel `id`.
pub open spec fn commitment_message(to: NodeId, id: ChannelId) -> MessageView {
    MessageView::CommitmentSigned {
        to,
        commitment_signed: seq![CommitmentSigned { channel_id: id }],
    }
}

/// Every witness of `witnesses` holds something.
pub open spec fn none_empty(witnesses: Seq<Seq<Seq<u8>>>) -> bool {
    forall|k: int| 0 <= k < witnesses.len() ==> (#[trigger] witnesses[k]).len() > 0
}

/// The events that tell of the channels that are gone.
pub open spec fn closed_events(gone: Seq<ClosedChannel>) -> Seq<EventView> {
    Seq::new(
        gone.len(),
        |k: int|
            EventView::ChannelClosed {
                channel_id: gone[k].channel_id,
                counterparty_node_id: gone[k].counterparty,
                user_channel_id: gone[k].user_channel_id,
            },
    )
}

impl NodeView {
    /// A message is put at the end of the queue.
    pub open spec fn send(self, message: MessageView) -> NodeView {
        NodeView { messages: self.messages.push(message), ..self }
    }

    /// An event is put at the end of the queue.
    pub open spec fn notify(self, event: EventView) -> NodeView {
        NodeView { events: self.events.push(event), ..self }
    }

    /// A channel is added, or takes the place of the one of its name.
    pub open spec fn set_channel(self, channel: ChannelView) -> NodeView {
        NodeView { channels: self.channels.insert(channel.channel_id, channel), ..self }
    }

    /// A message is refused: an error is sent, and nothing else happens.
    pub open spec fn refuse(self, to: NodeId, reason: ErrorReason) -> NodeView {
        self.send(MessageView::Error { to, reason })
    }

    /// Why a message of `from` for a channel `id` that should be at `stage` is refused.
    pub open spec fn stage_refusal(self, from: NodeId, id: ChannelId, stage: Stage) -> Option<
        ErrorReason,
    > {
        if !(self.channels.contains_key(id) && self.channels[id].counterparty == from) {
            Some(ErrorReason::UnknownChannel)
        } else if self.channels[id].stage != stage {
            Some(ErrorReason::UnexpectedMessage)
        } else {
            None
        }
    }

    /// The settings of a channel for which `override_config` was given.
    pub open spec fn effective_config(self, override_config: Option<UserConfig>) -> UserConfig {
        match override_config {
            Some(config) => config,
            None => self.config,
        }
    }

    /// The node tells its peers that it supports dual-funded channels.
    pub open spec fn advertises_dual_funding(self) -> bool {
        self.config.enable_dual_funded_channels
    }

    /// Why the node refuses to propose a channel.
    pub open spec fn create_refusal(
        self,
        funding_sats: u64,
        inputs: Seq<FundingTxInputView>,
        id: ChannelId,
    ) -> Option<Seq<char>> {
        if !self.config.enable_dual_funded_channels {
            Some("Dual-funded channels are not enabled"@)
        } else if funding_sats < MIN_CHANNEL_SATS {
            Some("Channel value must be at least 1000 satoshis"@)
        } else if total_sats(inputs) < funding_sats {
            Some("Funding inputs do not cover the channel value"@)
        } else if self.channels.contains_key(id) {
            Some("There is already a channel of that name"@)
        } else {
            None
        }
    }

    /// The node after it has proposed a channel.
    pub open spec fn after_create(
        self,
        counterparty: NodeId,
        funding_sats: u64,
        inputs: Seq<FundingTxInputView>,
        user_channel_id: u128,
        override_config: Option<UserConfig>,
        target: ConfirmationTarget,
        id: ChannelId,
    ) -> NodeView {
        let config = self.effective_config(override_config);
        self.set_channel(
            ChannelView {
                channel_id: id,
                counterparty,
                user_channel_id,
                is_initiator: true,
                config,
                zero_conf: false,
                confirmation_target: Some(target),
                our_funding_sats: funding_sats,
                their_funding_sats: 0,
                stage: Stage::OpenSent,
                to_send: as_contributions(inputs),
                items: Seq::empty(),
                sent_complete: false,
                tx: empty_tx(),
                owners: Seq::empty(),
                holder_signed: false,
                received_commitment: false,
                sent_signatures: false,
                received_signatures: false,
            },
        ).send(
            MessageView::OpenChannelV2 {
                to: counterparty,
                msg: OpenChannelV2 {
                    common_fields: CommonOpenChannelFields {
                        temporary_channel_id: id,
                        funding_satoshis: funding_sats,
                        announce_for_forwarding: config.announce_for_forwarding,
                    },
                },
            },
        )
    }

    /// Why the node refuses a proposal.
    pub open spec fn open_refusal(self, msg: OpenChannelV2) -> Option<ErrorReason> {
        if !self.config.enable_dual_funded_channels {
            Some(ErrorReason::DualFundingDisabled)
        } else if self.channels.contains_key(msg.common_fields.temporary_channel_id) {
            Some(ErrorReason::DuplicateChannel)
        } else {
            None
        }
    }

    /// The node after it was sent a proposal. Its user is asked, unless it is refused.
    pub open spec fn after_open_channel_v2(self, from: NodeId, msg: OpenChannelV2) -> NodeView {
        let fields = msg.common_fields;
        match self.open_refusal(msg) {
            Some(reason) => self.refuse(from, reason),
            None => self.set_channel(
                ChannelView {
                    channel_id: fields.temporary_channel_id,
                    counterparty: from,
                    user_channel_id: 0,
                    is_initiator: false,
                    config: self.config,
                    zero_conf: false,
                    confirmation_target: None,
                    our_funding_sats: 0,
                    their_funding_sats: fields.funding_satoshis,
                    stage: Stage::Requested,
                    to_send: Seq::empty(),
                    items: Seq::empty(),
                    sent_complete: false,
                    tx: empty_tx(),
                    owners: Seq::empty(),
                    holder_signed: false,
                    received_commitment: false,
                    sent_signatures: false,
                    received_signatures: false,
                },
            ).notify(
                EventView::OpenChannelRequest {
                    temporary_channel_id: fields.temporary_channel_id,
                    counterparty_node_id: from,
                    funding_satoshis: fields.funding_satoshis,
                    is_announced: fields.announce_for_forwarding,
                    params: InboundChannelFunds::DualFunded,
                },
            ),
        }
    }

    /// The node has a request of `counterparty` for the channel `id` to answer.
    pub open spec fn has_request(self, id: ChannelId, counterparty: NodeId) -> bool {
        self.stage_refusal(counterparty, id, Stage::Requested) is None
    }

    /// The node after its user has accepted the request for channel `id`.
    pub open spec fn after_accept(
        self,
        id: ChannelId,
        user_channel_id: u128,
        contribution_sats: u64,
        inputs: Seq<FundingTxInputView>,
        zero_conf: bool,
        override_config: Option<UserConfig>,
    ) -> NodeView {
        let channel = self.channels[id];
        self.set_channel(
            ChannelView {
                user_channel_id,
                config: self.effective_config(override_config),
                zero_conf,
                our_funding_sats: contribution_sats,
                stage: Stage::Negotiating,
                to_send: as_contributions(inputs),
                ..channel
            },
        ).send(
            MessageView::AcceptChannelV2 {
                to: channel.counterparty,
                msg: AcceptChannelV2 {
                    temporary_channel_id: id,
                    funding_satoshis: contribution_sats,
                },
            },
        )
    }

    /// It is this side's turn in the negotiation of `channel`: it puts its next contribution
    /// into the transaction, or says that it has none.
    pub open spec fn reply(self, channel: ChannelView) -> NodeView {
        let to = channel.counterparty;
        let id = channel.channel_id;
        if channel.to_send.len() > 0 {
            let next = channel.to_send[0];
            self.set_channel(
                ChannelView {
                    to_send: channel.to_send.remove(0),
                    items: channel.items.push(
                        NegotiatedView { by_initiator: channel.is_initiator, item: item_of(next) },
                    ),
                    sent_complete: false,
                    ..channel
                },
            ).send(add_message(to, id, next))
        } else {
            self.set_channel(ChannelView { sent_complete: true, ..channel }).send(
                MessageView::TxComplete { to, channel_id: id },
            )
        }
    }

    /// Both sides have completed the negotiation of `channel`. A side without inputs has
    /// nothing to sign and sends its commitment signature at once; otherwise the user is
    /// asked to sign.
    pub open spec fn finish(self, channel: ChannelView) -> NodeView {
        let tx = funding_tx(channel.items);
        let owners = owners_of(channel.items);
        let nothing_to_sign = !owners.contains(channel.is_initiator);
        let after = self.set_channel(
            ChannelView {
                stage: Stage::Signing,
                tx,
                owners,
                holder_signed: nothing_to_sign,
                ..channel
            },
        );
        if nothing_to_sign {
            after.send(commitment_message(channel.counterparty, channel.channel_id))
        } else {
            after.notify(
                EventView::FundingTransactionReadyForSigning {
                    channel_id: channel.channel_id,
                    counterparty_node_id: channel.counterparty,
                    user_channel_id: channel.user_channel_id,
                    unsigned_transaction: tx,
                },
            )
        }
    }

    /// The node after the acceptor's answer to its proposal. The transaction gets the funding
    /// output, which holds what both sides contribute, after this side's inputs.
    pub open spec fn after_accept_channel_v2(
        self,
        from: NodeId,
        msg: AcceptChannelV2,
        funding_script: Seq<u8>,
    ) -> NodeView {
        let id = msg.temporary_channel_id;
        let channel = self.channels[id];
        match self.stage_refusal(from, id, Stage::OpenSent) {
            Some(reason) => self.refuse(from, reason),
            None => if channel.our_funding_sats + msg.funding_satoshis > u64::MAX {
                self.refuse(from, ErrorReason::AmountOverflow)
            } else {
                self.reply(
                    ChannelView {
                        their_funding_sats: msg.funding_satoshis,
                        stage: Stage::Negotiating,
                        to_send: channel.to_send.push(
                            ContributionView::Output(
                                TxOutView {
                                    value_sats: (channel.our_funding_sats
                                        + msg.funding_satoshis) as u64,
                                    script_pubkey: funding_script,
                                },
                            ),
                        ),
                        ..channel
                    },
                )
            },
        }
    }

    /// The node after the counterparty has put `item` into the transaction of channel `id`.
    pub open spec fn after_item(self, id: ChannelId, item: TxItemView) -> NodeView {
        let channel = self.channels[id];
        self.reply(
            ChannelView {
                items: channel.items.push(
                    NegotiatedView { by_initiator: !channel.is_initiator, item },
                ),
                ..channel
            },
        )
    }

    /// The node after a message that adds an input.
    pub open spec fn after_tx_add_input(
        self,
        from: NodeId,
        id: ChannelId,
        prevtx: TransactionView,
        vout: u32,
    ) -> NodeView {
        self.after_tx_add_input_as(from, id, prevtx, vout, txid_of(prevtx.unsigned()))
    }

    /// The node after a message that adds an output of `prevtx`, identified by `txid`, as an
    /// input.
    pub open spec fn after_tx_add_input_as(
        self,
        from: NodeId,
        id: ChannelId,
        prevtx: TransactionView,
        vout: u32,
        txid: Txid,
    ) -> NodeView {
        match self.stage_refusal(from, id, Stage::Negotiating) {
            Some(reason) => self.refuse(from, reason),
            None => if !may_add_input(self.channels[id].items, prevtx, vout, txid) {
                self.refuse(from, ErrorReason::InvalidInput)
            } else {
                self.after_item(id, received_input(prevtx, vout, txid))
            },
        }
    }

    /// The node after a message that adds an output.
    pub open spec fn after_tx_add_output(
        self,
        from: NodeId,
        id: ChannelId,
        output: TxOutView,
    ) -> NodeView {
        match self.stage_refusal(from, id, Stage::Negotiating) {
            Some(reason) => self.refuse(from, reason),
            None => self.after_item(id, TxItemView::Output { output }),
        }
    }

    /// The node after the counterparty's completion. The negotiation is over when this side
    /// has just said the same, or says it in reply.
    pub open spec fn after_tx_complete(self, from: NodeId, id: ChannelId) -> NodeView {
        let channel = self.channels[id];
        match self.stage_refusal(from, id, Stage::Negotiating) {
            Some(reason) => self.refuse(from, reason),
            None => if channel.sent_complete {
                self.finish(channel)
            } else {
                let replied = self.reply(channel);
                if channel.to_send.len() == 0 {
                    replied.finish(replied.channels[id])
                } else {
                    replied
                }
            },
        }
    }

    /// This side reveals its signatures first: it has put less into the transaction, or as
    /// much and its key comes first.
    pub open spec fn sends_signatures_first(self, channel: ChannelView) -> bool {
        let ours = input_sats(channel.items, channel.is_initiator);
        let theirs = input_sats(channel.items, !channel.is_initiator);
        ours < theirs || (ours == theirs && lex_before(
            self.id.bytes@,
            channel.counterparty.bytes@,
        ))
    }

    /// This side can reveal its signatures now: it has signed, it holds the counterparty's
    /// signature on its commitment transaction, and it is its turn.
    pub open spec fn can_send_signatures(self, channel: ChannelView) -> bool {
        &&& channel.holder_signed
        &&& channel.received_commitment
        &&& !channel.sent_signatures
        &&& self.sends_signatures_first(channel) || channel.received_signatures
    }

    /// `channel` has changed: this side sends its signatures if it can, and broadcasts the
    /// transaction once both sides' signatures have been exchanged.
    pub open spec fn advance(self, channel: ChannelView) -> NodeView {
        let sends = self.can_send_signatures(channel);
        let sent = if sends {
            self.send(
                MessageView::TxSignatures {
                    to: channel.counterparty,
                    channel_id: channel.channel_id,
                    witnesses: witnesses_of(
                        channel.tx.input,
                        channel.owners,
                        channel.is_initiator,
                    ),
                },
            )
        } else {
            self
        };
        let after = ChannelView {
            sent_signatures: channel.sent_signatures || sends,
            ..channel
        };
        if after.sent_signatures && after.received_signatures {
            NodeView { broadcast: sent.broadcast.push(channel.tx), ..sent }.set_channel(
                ChannelView { stage: Stage::Broadcast, ..after },
            ).notify(
                EventView::ChannelPending {
                    channel_id: channel.channel_id,
                    counterparty_node_id: channel.counterparty,
                    user_channel_id: channel.user_channel_id,
                },
            )
        } else {
            sent.set_channel(after)
        }
    }

    /// Why `signed` is refused as the transaction of channel `id` with a witness on each of
    /// this side's inputs.
    pub open spec fn signing_refusal(self, id: ChannelId, signed: TransactionView) -> Option<
        Seq<char>,
    > {
        let channel = self.channels[id];
        if channel.holder_signed {
            Some("The funding transaction is already signed"@)
        } else if signed.unsigned() != channel.tx.unsigned() {
            Some("The transaction is not the negotiated one"@)
        } else if !all_signed(signed.input, channel.owners, channel.is_initiator) {
            Some("An input of this side is not signed"@)
        } else {
            None
        }
    }

    /// The node after its user has signed the transaction of channel `id`.
    pub open spec fn after_signed(self, id: ChannelId, signed: TransactionView) -> NodeView {
        let channel = self.channels[id];
        self.send(commitment_message(channel.counterparty, id)).advance(
            ChannelView {
                holder_signed: true,
                tx: TransactionView {
                    input: with_witnesses(
                        channel.tx.input,
                        channel.owners,
                        channel.is_initiator,
                        witnesses_of(signed.input, channel.owners, channel.is_initiator),
                    ),
                    ..channel.tx
                },
                ..channel
            },
        )
    }

    /// The node after the counterparty's commitment signature. A monitor is added for the
    /// channel.
    pub open spec fn after_commitment_signed(self, from: NodeId, id: ChannelId) -> NodeView {
        let channel = self.channels[id];
        match self.stage_refusal(from, id, Stage::Signing) {
            Some(reason) => self.refuse(from, reason),
            None => if channel.received_commitment {
                self.refuse(from, ErrorReason::UnexpectedMessage)
            } else {
                NodeView { monitors: self.monitors.push(id), ..self }.advance(
                    ChannelView { received_commitment: true, ..channel },
                )
            },
        }
    }

    /// Why the counterparty's signatures on the transaction of channel `id` are refused: they
    /// come too early or twice, or do not fit its inputs.
    pub open spec fn signatures_refusal(
        self,
        from: NodeId,
        id: ChannelId,
        witnesses: Seq<Seq<Seq<u8>>>,
    ) -> Option<ErrorReason> {
        let channel = self.channels[id];
        match self.stage_refusal(from, id, Stage::Signing) {
            Some(reason) => Some(reason),
            None => if !channel.received_commitment || channel.received_signatures || (
            self.sends_signatures_first(channel) && !channel.sent_signatures) {
                Some(ErrorReason::UnexpectedMessage)
            } else if witnesses.len() != count_owned(channel.owners, !channel.is_initiator)
                || !none_empty(witnesses) {
                Some(ErrorReason::InvalidWitnesses)
            } else {
                None
            },
        }
    }

    /// The node after the counterparty's signatures.
    pub open spec fn after_tx_signatures(
        self,
        from: NodeId,
        id: ChannelId,
        witnesses: Seq<Seq<Seq<u8>>>,
    ) -> NodeView {
        let channel = self.channels[id];
        match self.signatures_refusal(from, id, witnesses) {
            Some(reason) => self.refuse(from, reason),
            None => self.advance(
                ChannelView {
                    received_signatures: true,
                    tx: TransactionView {
                        input: with_witnesses(
                            channel.tx.input,
                            channel.owners,
                            !channel.is_initiator,
                            witnesses,
                        ),
                        ..channel.tx
                    },
                    ..channel
                },
            ),
        }
    }

    /// `after` is the node once it has lost its unfunded channels with `peer`, or all of them
    /// if `peer` is none. Its user is told of each, in some order, and nothing else changes.
    pub open spec fn loses_unfunded(self, peer: Option<NodeId>, after: NodeView) -> bool {
        exists|gone: Seq<ClosedChannel>| #[trigger]
            lists_lost(self.channels, peer, gone) && after == (NodeView {
                channels: kept(self.channels, peer),
                events: self.events + closed_events(gone),
                ..self
            })
    }

    /// What holds of every node between two calls.
    pub open spec fn inv(self) -> bool {
        &&& self.wallet.inv()
        &&& forall|id: ChannelId| #[trigger]
            self.channels.contains_key(id) ==> self.channels[id].inv()
                && self.channels[id].channel_id == id
    }
}

} // verus!
