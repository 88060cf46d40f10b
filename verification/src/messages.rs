//! Messages between nodes, and events that a node raises for its user.

use vstd::prelude::*;
use crate::ids::{ChannelId, NodeId};
use crate::tx::{Transaction, TransactionView, TxOut, TxOutView};
use crate::witness::{witness_views, Witness};

verus! {

/// The part of a channel proposal that both versions of the protocol share.
#[derive(Clone, Copy, Debug)]
pub struct CommonOpenChannelFields {
    pub temporary_channel_id: ChannelId,
    pub funding_satoshis: u64,
    pub announce_for_forwarding: bool,
}

/// Proposes a dual-funded channel.
#[derive(Clone, Copy, Debug)]
pub struct OpenChannelV2 {
    pub common_fields: CommonOpenChannelFields,
}

/// Accepts a dual-funded channel, with what the acceptor contributes.
#[derive(Clone, Copy, Debug)]
pub struct AcceptChannelV2 {
    pub temporary_channel_id: ChannelId,
    pub funding_satoshis: u64,
}

/// Adds an input to the transaction under negotiation: an output of `prevtx`.
#[derive(Clone, Debug)]
pub struct TxAddInput {
    pub channel_id: ChannelId,
    pub prevtx: Transaction,
    pub prevtx_out: u32,
}

/// Adds an output to the transaction under negotiation.
#[derive(Clone, Debug)]
pub struct TxAddOutput {
    pub channel_id: ChannelId,
    pub output: TxOut,
}

/// Says that the sender has nothing to add for now.
#[derive(Clone, Copy, Debug)]
pub struct TxComplete {
    pub channel_id: ChannelId,
}

/// Carries the sender's signature on the receiver's first commitment transaction.
#[derive(Clone, Copy, Debug)]
pub struct CommitmentSigned {
    pub channel_id: ChannelId,
}

/// Changes to a channel's commitment transactions.
#[derive(Clone, Debug)]
pub struct CommitmentUpdate {
    pub commitment_signed: Vec<CommitmentSigned>,
}

/// Carries the witnesses of the sender's inputs, in the order of the inputs.
#[derive(Clone, Debug)]
pub struct TxSignatures {
    pub channel_id: ChannelId,
    pub witnesses: Vec<Witness>,
}

/// Why a message was refused.
#[derive(Clone, Copy, Debug, PartialEq, Eq, Structural)]
pub enum ErrorReason {
    /// Dual-funded channels are not enabled.
    DualFundingDisabled,
    /// There is already a channel of that name.
    DuplicateChannel,
    /// The sender has no channel of that name.
    UnknownChannel,
    /// The channel does not expect that message now.
    UnexpectedMessage,
    /// The previous transaction has no such output, or one that no witness unlocks, or one that
    /// is spent already.
    InvalidInput,
    /// The contributions do not add up to an amount.
    AmountOverflow,
    /// The witnesses do not fit the sender's inputs.
    InvalidWitnesses,
}

/// A message that waits to be sent to `node_id`.
#[derive(Clone, Debug)]
pub enum MessageSendEvent {
    SendOpenChannelV2 { node_id: NodeId, msg: OpenChannelV2 },
    SendAcceptChannelV2 { node_id: NodeId, msg: AcceptChannelV2 },
    SendTxAddInput { node_id: NodeId, msg: TxAddInput },
    SendTxAddOutput { node_id: NodeId, msg: TxAddOutput },
    SendTxComplete { node_id: NodeId, msg: TxComplete },
    UpdateHTLCs { node_id: NodeId, updates: CommitmentUpdate },
    SendTxSignatures { node_id: NodeId, msg: TxSignatures },
    HandleError { node_id: NodeId, reason: ErrorReason },
}

/// What a [`MessageSendEvent`] holds.
pub enum MessageView {
    OpenChannelV2 { to: NodeId, msg: OpenChannelV2 },
    AcceptChannelV2 { to: NodeId, msg: AcceptChannelV2 },
    TxAddInput { to: NodeId, channel_id: ChannelId, prevtx: TransactionView, prevtx_out: u32 },
    TxAddOutput { to: NodeId, channel_id: ChannelId, output: TxOutView },
    TxComplete { to: NodeId, channel_id: ChannelId },
    CommitmentSigned { to: NodeId, commitment_signed: Seq<CommitmentSigned> },
    TxSignatures { to: NodeId, channel_id: ChannelId, witnesses: Seq<Seq<Seq<u8>>> },
    Error { to: NodeId, reason: ErrorReason },
}

impl View for MessageSendEvent {
    type V = MessageView;

    open spec fn view(&self) -> MessageView {
        match *self {
            MessageSendEvent::SendOpenChannelV2 { node_id, msg } => MessageView::OpenChannelV2 {
                to: node_id,
                msg,
            },
            MessageSendEvent::SendAcceptChannelV2 { node_id, msg } => {
                MessageView::AcceptChannelV2 { to: node_id, msg }
            },
            MessageSendEvent::SendTxAddInput { node_id, msg } => MessageView::TxAddInput {
                to: node_id,
                channel_id: msg.channel_id,
                prevtx: msg.prevtx@,
                prevtx_out: msg.prevtx_out,
            },
            MessageSendEvent::SendTxAddOutput { node_id, msg } => MessageView::TxAddOutput {
                to: node_id,
                channel_id: msg.channel_id,
                output: msg.output@,
            },
            MessageSendEvent::SendTxComplete { node_id, msg } => MessageView::TxComplete {
                to: node_id,
                channel_id: msg.channel_id,
            },
            MessageSendEvent::UpdateHTLCs { node_id, updates } => MessageView::CommitmentSigned {
                to: node_id,
                commitment_signed: updates.commitment_signed@,
            },
            MessageSendEvent::SendTxSignatures { node_id, msg } => MessageView::TxSignatures {
                to: node_id,
                channel_id: msg.channel_id,
                witnesses: witness_views(msg.witnesses@),
            },
            MessageSendEvent::HandleError { node_id, reason } => MessageView::Error {
                to: node_id,
                reason,
            },
        }
    }
}

/// How a channel that a peer proposes is funded.
#[derive(Clone, Copy, Debug, PartialEq, Eq, Structural)]
pub enum InboundChannelFunds {
    /// The peer funds the channel alone, and pushes an amount to this side.
    PushMsat(u64),
    /// Both sides can contribute.
    DualFunded,
}

/// Something that a node's user has to know or to decide.
#[derive(Clone, Debug)]
pub enum Event {
    /// A peer proposes a channel.
    OpenChannelRequest {
        temporary_channel_id: ChannelId,
        counterparty_node_id: NodeId,
        funding_satoshis: u64,
        is_announced: bool,
        params: InboundChannelFunds,
    },
    /// The funding transaction is complete and waits for this side's signatures.
    FundingTransactionReadyForSigning {
        channel_id: ChannelId,
        counterparty_node_id: NodeId,
        user_channel_id: u128,
        unsigned_transaction: Transaction,
    },
    /// The funding transaction has been broadcast.
    ChannelPending {
        channel_id: ChannelId,
        counterparty_node_id: NodeId,
        user_channel_id: u128,
    },
    /// The channel is gone.
    ChannelClosed {
        channel_id: ChannelId,
        counterparty_node_id: NodeId,
        user_channel_id: u128,
    },
}

/// What an [`Event`] holds.
pub enum EventView {
    OpenChannelRequest {
        temporary_channel_id: ChannelId,
        counterparty_node_id: NodeId,
        funding_satoshis: u64,
        is_announced: bool,
        params: InboundChannelFunds,
    },
    FundingTransactionReadyForSigning {
        channel_id: ChannelId,
        counterparty_node_id: NodeId,
        user_channel_id: u128,
        unsigned_transaction: TransactionView,
    },
    ChannelPending {
        channel_id: ChannelId,
        counterparty_node_id: NodeId,
        user_channel_id: u128,
    },
    ChannelClosed {
        channel_id: ChannelId,
        counterparty_node_id: NodeId,
        user_channel_id: u128,
    },
}

impl View for Event {
    type V = EventView;

    open spec fn view(&self) -> EventView {
        match *self {
            Event::OpenChannelRequest {
                temporary_channel_id,
                counterparty_node_id,
                funding_satoshis,
                is_announced,
                params,
            } => EventView::OpenChannelRequest {
                temporary_channel_id,
                counterparty_node_id,
                funding_satoshis,
                is_announced,
                params,
            },
            Event::FundingTransactionReadyForSigning {
                channel_id,
                counterparty_node_id,
                user_channel_id,
                unsigned_transaction,
            } => EventView::FundingTransactionReadyForSigning {
                channel_id,
                counterparty_node_id,
                user_channel_id,
                unsigned_transaction: unsigned_transaction@,
            },
            Event::ChannelPending { channel_id, counterparty_node_id, user_channel_id } => {
                EventView::ChannelPending { channel_id, counterparty_node_id, user_channel_id }
            },
            Event::ChannelClosed { channel_id, counterparty_node_id, user_channel_id } => {
                EventView::ChannelClosed { channel_id, counterparty_node_id, user_channel_id }
            },
        }
    }
}

} // verus!
