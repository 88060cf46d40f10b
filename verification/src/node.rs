//! A node: one endpoint of dual-funded channels.

use vstd::prelude::*;
use crate::bitcoin_calls::{compute_txid, is_witness_program, txid_of};
use crate::bitcoin_calls::p2wpkh_script_of;
use crate::channel::{kept, lists_lost, Channel, ChannelTable, ChannelView, ConfirmationTarget};
use crate::channel::{Stage, MIN_CHANNEL_SATS};
use crate::config::UserConfig;
use crate::errors::APIError;
use crate::funding::{all_valid, input_spending, single_output_tx, total_sats};
use crate::funding::{make_single_output_tx, total_value, FundingTxInput};
use crate::ids::{ChannelId, NodeId, OutPoint, Txid};
use crate::invariants::{lemma_accept_channel_inv, lemma_accept_inv, lemma_commitment_signed_inv};
use crate::invariants::{lemma_create_inv, lemma_item_inv, lemma_open_inv, lemma_signed_inv};
use crate::invariants::{lemma_tx_complete_inv, lemma_tx_signatures_inv};
use crate::items::{add_input_sats, build_funding_tx, is_spent, item_of, list_owners, spends};
use crate::items::{Contribution, Negotiated, TxItem};
use crate::messages::{AcceptChannelV2, CommitmentSigned, CommitmentUpdate, CommonOpenChannelFields};
use crate::messages::{ErrorReason, Event, InboundChannelFunds, MessageSendEvent};
use crate::messages::{OpenChannelV2, TxAddInput, TxAddOutput, TxComplete, TxSignatures};
use crate::model::{add_message, as_contributions, commitment_message, empty_tx, none_empty};
use crate::model::{closed_events, NodeView};
use crate::tx::{Transaction, TxOut, TxOutView, TX_LOCK_TIME, TX_VERSION};
use crate::views::{group_view_all, view_all};
use crate::wallet::{Wallet, WalletView};
use crate::witness::{collect_witnesses, is_all_signed, number_owned, put_witnesses, Witness};
use crate::witness::{lemma_witnesses_of, witness_views};

verus! {

broadcast use group_view_all;

/// A node.
#[derive(Debug)]
pub struct Node {
    id: NodeId,
    config: UserConfig,
    wallet: Wallet,
    channels: ChannelTable,
    messages: Vec<MessageSendEvent>,
    events: Vec<Event>,
    broadcast: Vec<Transaction>,
    monitors: Vec<ChannelId>,
}

impl View for Node {
    type V = NodeView;

    closed spec fn view(&self) -> NodeView {
        NodeView {
            id: self.id,
            config: self.config,
            wallet: self.wallet@,
            channels: self.channels@,
            messages: view_all(self.messages@),
            events: view_all(self.events@),
            broadcast: view_all(self.broadcast@),
            monitors: self.monitors@,
        }
    }
}

/// The node with its channel `id` taken out.
spec fn without(n: NodeView, id: ChannelId) -> NodeView {
    NodeView { channels: n.channels.remove(id), ..n }
}

/// A channel that is taken out and put back changed has taken the place of the old one.
proof fn lemma_reinsert(n: NodeView, id: ChannelId)
    ensures
        forall|v: ChannelView|
            #![trigger n.channels.insert(id, v)]
            #![trigger without(n, id).channels.insert(id, v)]
            without(n, id).channels.insert(id, v) == n.channels.insert(id, v),
{
    assert forall|v: ChannelView|
        #![trigger n.channels.insert(id, v)]
        #![trigger without(n, id).channels.insert(id, v)]
        without(n, id).channels.insert(id, v) == n.channels.insert(id, v) by {
        assert(without(n, id).channels.insert(id, v) =~= n.channels.insert(id, v));
    }
}

/// Makes contributions of `inputs`.
fn to_contributions(inputs: Vec<FundingTxInput>) -> (r: Vec<Contribution>)
    ensures
        view_all(r@) == as_contributions(view_all(inputs@)),
{
    let ghost all = view_all(inputs@);
    let mut inputs = inputs;
    let mut r: Vec<Contribution> = Vec::new();
    while inputs.len() > 0
        invariant
            inputs.len() + r.len() == all.len(),
            view_all(inputs@) == all.skip(r.len() as int),
            view_all(r@) == as_contributions(all.take(r.len() as int)),
        decreases inputs.len(),
    {
        let ghost before = r@;
        let ghost rest = view_all(inputs@);
        let next = inputs.remove(0);
        r.push(Contribution::Input(next));
        proof {
            let n = before.len() as int;
            assert(rest[0] == all[n]);
            assert(view_all(inputs@) =~= all.skip(n + 1));
            assert(view_all(r@) =~= as_contributions(all.take(n + 1)));
        }
    }
    assert(all.take(r.len() as int) =~= all);
    r
}

/// Makes a transaction with nothing in it.
fn new_empty_tx() -> (tx: Transaction)
    ensures
        tx@ == empty_tx(),
{
    Transaction {
        version: TX_VERSION,
        lock_time: TX_LOCK_TIME,
        input: Vec::new(),
        output: Vec::new(),
    }
}

impl Node {
    /// The table of channels holds together.
    pub closed spec fn table_wf(self) -> bool {
        self.channels.wf()
    }

    /// What holds of every node between two calls.
    pub open spec fn wf(self) -> bool {
        self.table_wf() && self@.inv()
    }

    /// A node without channels.
    pub fn new(id: NodeId, config: UserConfig, wallet: Wallet) -> (n: Node)
        ensures
            n.wf(),
            n@ == (NodeView {
                id,
                config,
                wallet: wallet@,
                channels: Map::empty(),
                messages: Seq::empty(),
                events: Seq::empty(),
                broadcast: Seq::empty(),
                monitors: Seq::empty(),
            }),
    {
        proof {
            use_type_invariant(&wallet);
        }
        Node {
            id,
            config,
            wallet,
            channels: ChannelTable::new(),
            messages: Vec::new(),
            events: Vec::new(),
            broadcast: Vec::new(),
            monitors: Vec::new(),
        }
    }

    /// The node's key.
    pub fn get_our_node_id(&self) -> (r: NodeId)
        ensures
            r == self@.id,
    {
        self.id
    }

    /// The node's wallet.
    pub fn wallet(&self) -> (r: &Wallet)
        ensures
            r@ == self@.wallet,
    {
        &self.wallet
    }

    /// Whether the node tells its peers, when they connect, that it supports dual-funded
    /// channels (`option_dual_fund`): it does exactly if they are enabled.
    pub fn advertises_dual_funding(&self) -> (r: bool)
        ensures
            r == self@.advertises_dual_funding(),
            r == self@.config.enable_dual_funded_channels,
    {
        self.config.enable_dual_funded_channels
    }

    /// The channel named `id`.
    pub fn channel(&self, id: &ChannelId) -> (r: Option<&Channel>)
        requires
            self.wf(),
        ensures
            match r {
                Some(c) => self@.channels.contains_key(*id) && self@.channels[*id] == c@,
                None => !self@.channels.contains_key(*id),
            },
    {
        self.channels.get(id)
    }

    /// Hands out the messages that wait to be sent, in order, and empties the queue.
    pub fn get_and_clear_pending_msg_events(&mut self) -> (r: Vec<MessageSendEvent>)
        requires
            old(self).wf(),
        ensures
            final(self).wf(),
            view_all(r@) == old(self)@.messages,
            final(self)@ == (NodeView { messages: Seq::empty(), ..old(self)@ }),
    {
        let mut r: Vec<MessageSendEvent> = Vec::new();
        std::mem::swap(&mut r, &mut self.messages);
        r
    }

    /// Hands out the events that wait for the user, in order, and empties the queue.
    pub fn get_and_clear_pending_events(&mut self) -> (r: Vec<Event>)
        requires
            old(self).wf(),
        ensures
            final(self).wf(),
            view_all(r@) == old(self)@.events,
            final(self)@ == (NodeView { events: Seq::empty(), ..old(self)@ }),
    {
        let mut r: Vec<Event> = Vec::new();
        std::mem::swap(&mut r, &mut self.events);
        r
    }

    /// Hands out the transactions that were broadcast, in order, and forgets them.
    pub fn txn_broadcast(&mut self) -> (r: Vec<Transaction>)
        requires
            old(self).wf(),
        ensures
            final(self).wf(),
            view_all(r@) == old(self)@.broadcast,
            final(self)@ == (NodeView { broadcast: Seq::empty(), ..old(self)@ }),
    {
        let mut r: Vec<Transaction> = Vec::new();
        std::mem::swap(&mut r, &mut self.broadcast);
        r
    }

    /// Hands out the channels for which a monitor was added, in order, and forgets them.
    pub fn get_and_clear_added_monitors(&mut self) -> (r: Vec<ChannelId>)
        requires
            old(self).wf(),
        ensures
            final(self).wf(),
            r@ == old(self)@.monitors,
            final(self)@ == (NodeView { monitors: Seq::empty(), ..old(self)@ }),
    {
        let mut r: Vec<ChannelId> = Vec::new();
        std::mem::swap(&mut r, &mut self.monitors);
        r
    }

    /// Refuses a message.
    fn refuse(&mut self, to: NodeId, reason: ErrorReason)
        requires
            old(self).wf(),
        ensures
            final(self).wf(),
            final(self)@ == old(self)@.refuse(to, reason),
    {
        self.messages.push(MessageSendEvent::HandleError { node_id: to, reason });
    }

    /// Why a message of `from` for a channel `id` that should be at `stage` is refused.
    fn stage_refusal(&self, from: &NodeId, id: &ChannelId, stage: Stage) -> (r: Option<ErrorReason>)
        requires
            self.wf(),
        ensures
            r == self@.stage_refusal(*from, *id, stage),
    {
        match self.channels.get(id) {
            Some(c) => if c.counterparty != *from {
                Some(ErrorReason::UnknownChannel)
            } else if c.stage != stage {
                Some(ErrorReason::UnexpectedMessage)
            } else {
                None
            },
            None => Some(ErrorReason::UnknownChannel),
        }
    }

    /// The settings of a channel for which `override_config` was given.
    fn effective_config(&self, override_config: Option<UserConfig>) -> (r: UserConfig)
        ensures
            r == self@.effective_config(override_config),
    {
        match override_config {
            Some(config) => config,
            None => self.config,
        }
    }

    /// Queues the message that puts `next` into the transaction of channel `id`, and hands out
    /// the item that it becomes.
    fn send_contribution(&mut self, to: NodeId, id: ChannelId, next: Contribution) -> (item: TxItem)
        ensures
            item@ == item_of(next@),
            final(self)@ == old(self)@.send(add_message(to, id, next@)),
            final(self).table_wf() == old(self).table_wf(),
    {
        match next {
            Contribution::Input(input) => {
                let outpoint = input.outpoint();
                let item = TxItem::Input { outpoint, value_sats: input.value_sats() };
                let prevtx = input.into_prevtx();
                let msg = TxAddInput { channel_id: id, prevtx, prevtx_out: outpoint.vout };
                self.messages.push(MessageSendEvent::SendTxAddInput { node_id: to, msg });
                item
            },
            Contribution::Output(output) => {
                let item = TxItem::Output { output: output.clone() };
                let msg = TxAddOutput { channel_id: id, output };
                self.messages.push(MessageSendEvent::SendTxAddOutput { node_id: to, msg });
                item
            },
        }
    }

    /// Takes this side's turn in the negotiation of `c`, a channel that is not in the table.
    fn reply(&mut self, c: Channel)
        requires
            old(self).table_wf(),
            !old(self)@.channels.contains_key(c.channel_id),
        ensures
            final(self).table_wf(),
            final(self)@ == old(self)@.reply(c@),
    {
        let ghost before = c@;
        let mut c = c;
        let to = c.counterparty;
        let id = c.channel_id;
        if c.to_send.len() > 0 {
            let next = c.to_send.remove(0);
            assert(next@ == before.to_send[0]);
            let item = self.send_contribution(to, id, next);
            c.items.push(Negotiated { by_initiator: c.is_initiator, item });
            c.sent_complete = false;
        } else {
            c.sent_complete = true;
            let msg = TxComplete { channel_id: id };
            self.messages.push(MessageSendEvent::SendTxComplete { node_id: to, msg });
        }
        self.channels.put(c);
    }

    /// Queues the commitment signature for channel `id`.
    fn send_commitment(&mut self, to: NodeId, id: ChannelId)
        ensures
            final(self)@ == old(self)@.send(commitment_message(to, id)),
            final(self).table_wf() == old(self).table_wf(),
    {
        let mut commitment_signed: Vec<CommitmentSigned> = Vec::new();
        commitment_signed.push(CommitmentSigned { channel_id: id });
        assert(commitment_signed@ =~= seq![CommitmentSigned { channel_id: id }]);
        let updates = CommitmentUpdate { commitment_signed };
        self.messages.push(MessageSendEvent::UpdateHTLCs { node_id: to, updates });
    }

    /// Ends the negotiation of `c`, a channel that is not in the table.
    fn finish(&mut self, c: Channel)
        requires
            old(self).table_wf(),
            !old(self)@.channels.contains_key(c.channel_id),
        ensures
            final(self).table_wf(),
            final(self)@ == old(self)@.finish(c@),
    {
        let mut c = c;
        let tx = build_funding_tx(&c.items);
        let owners = list_owners(&c.items);
        let nothing_to_sign = !owns_any(&owners, c.is_initiator);
        if nothing_to_sign {
            self.send_commitment(c.counterparty, c.channel_id);
        } else {
            let unsigned_transaction = tx.clone();
            self.events.push(
                Event::FundingTransactionReadyForSigning {
                    channel_id: c.channel_id,
                    counterparty_node_id: c.counterparty,
                    user_channel_id: c.user_channel_id,
                    unsigned_transaction,
                },
            );
        }
        c.stage = Stage::Signing;
        c.tx = tx;
        c.owners = owners;
        c.holder_signed = nothing_to_sign;
        self.channels.put(c);
    }

    /// Whether this side reveals its signatures on the transaction of `c` first.
    fn sends_signatures_first(&self, c: &Channel) -> (r: bool)
        ensures
            r == self@.sends_signatures_first(c@),
    {
        let ours = add_input_sats(&c.items, c.is_initiator);
        let theirs = add_input_sats(&c.items, !c.is_initiator);
        ours < theirs || (ours == theirs && self.id.is_before(&c.counterparty))
    }

    /// Does what a change of `c` calls for; `c` is not in the table.
    fn advance(&mut self, c: Channel)
        requires
            old(self).table_wf(),
            !old(self)@.channels.contains_key(c.channel_id),
            c.tx.input.len() == c.owners.len(),
        ensures
            final(self).table_wf(),
            final(self)@ == old(self)@.advance(c@),
    {
        let mut c = c;
        let first = self.sends_signatures_first(&c);
        if c.holder_signed && c.received_commitment && !c.sent_signatures && (first
            || c.received_signatures) {
            let witnesses = collect_witnesses(&c.tx.input, &c.owners, c.is_initiator);
            let msg = TxSignatures { channel_id: c.channel_id, witnesses };
            self.messages.push(
                MessageSendEvent::SendTxSignatures { node_id: c.counterparty, msg },
            );
            c.sent_signatures = true;
        }
        if c.sent_signatures && c.received_signatures {
            let tx = c.tx.clone();
            self.broadcast.push(tx);
            self.events.push(
                Event::ChannelPending {
                    channel_id: c.channel_id,
                    counterparty_node_id: c.counterparty,
                    user_channel_id: c.user_channel_id,
                },
            );
            c.stage = Stage::Broadcast;
        }
        self.channels.put(c);
    }
}

impl Node {
    /// Proposes a dual-funded channel to `counterparty`. `funding_inputs` are to cover
    /// `funding_satoshis`, and `temporary_channel_id` is a fresh name for the channel.
    pub fn create_v2_channel(
        &mut self,
        counterparty: NodeId,
        funding_satoshis: u64,
        funding_inputs: Vec<FundingTxInput>,
        user_channel_id: u128,
        override_config: Option<UserConfig>,
        confirmation_target: ConfirmationTarget,
        temporary_channel_id: ChannelId,
    ) -> (r: Result<ChannelId, APIError>)
        requires
            old(self).wf(),
            all_valid(view_all(funding_inputs@)),
        ensures
            final(self).wf(),
            ({
                let inputs = view_all(funding_inputs@);
                let refusal = old(self)@.create_refusal(
                    funding_satoshis,
                    inputs,
                    temporary_channel_id,
                );
                match r {
                    Ok(id) => {
                        &&& refusal is None
                        &&& id == temporary_channel_id
                        &&& final(self)@ == old(self)@.after_create(
                            counterparty,
                            funding_satoshis,
                            inputs,
                            user_channel_id,
                            override_config,
                            confirmation_target,
                            temporary_channel_id,
                        )
                    },
                    Err(e) => {
                        &&& e matches APIError::APIMisuseError { err } && refusal == Some(err@)
                        &&& final(self)@ == old(self)@
                    },
                }
            }),
    {
        if !self.config.enable_dual_funded_channels {
            let err = "Dual-funded channels are not enabled".to_owned();
            return Err(APIError::APIMisuseError { err });
        }
        if funding_satoshis < MIN_CHANNEL_SATS {
            let err = "Channel value must be at least 1000 satoshis".to_owned();
            return Err(APIError::APIMisuseError { err });
        }
        if total_value(&funding_inputs) < funding_satoshis as u128 {
            let err = "Funding inputs do not cover the channel value".to_owned();
            return Err(APIError::APIMisuseError { err });
        }
        if self.channels.get(&temporary_channel_id).is_some() {
            let err = "There is already a channel of that name".to_owned();
            return Err(APIError::APIMisuseError { err });
        }
        proof {
            lemma_create_inv(
                self@,
                counterparty,
                funding_satoshis,
                view_all(funding_inputs@),
                user_channel_id,
                override_config,
                confirmation_target,
                temporary_channel_id,
            );
        }
        let config = self.effective_config(override_config);
        self.channels.put(
            Channel {
                channel_id: temporary_channel_id,
                counterparty,
                user_channel_id,
                is_initiator: true,
                config,
                zero_conf: false,
                confirmation_target: Some(confirmation_target),
                our_funding_sats: funding_satoshis,
                their_funding_sats: 0,
                stage: Stage::OpenSent,
                to_send: to_contributions(funding_inputs),
                items: Vec::new(),
                sent_complete: false,
                tx: new_empty_tx(),
                owners: Vec::new(),
                holder_signed: false,
                received_commitment: false,
                sent_signatures: false,
                received_signatures: false,
            },
        );
        let common_fields = CommonOpenChannelFields {
            temporary_channel_id,
            funding_satoshis,
            announce_for_forwarding: config.announce_for_forwarding,
        };
        let msg = OpenChannelV2 { common_fields };
        self.messages.push(MessageSendEvent::SendOpenChannelV2 { node_id: counterparty, msg });
        Ok(temporary_channel_id)
    }

    /// Handles a proposal of `from`.
    pub fn handle_open_channel_v2(&mut self, from: NodeId, msg: &OpenChannelV2)
        requires
            old(self).wf(),
        ensures
            final(self).wf(),
            final(self)@ == old(self)@.after_open_channel_v2(from, *msg),
    {
        proof {
            lemma_open_inv(self@, from, *msg);
        }
        if !self.config.enable_dual_funded_channels {
            self.refuse(from, ErrorReason::DualFundingDisabled);
            return;
        }
        let fields = msg.common_fields;
        if self.channels.get(&fields.temporary_channel_id).is_some() {
            self.refuse(from, ErrorReason::DuplicateChannel);
            return;
        }
        self.channels.put(
            Channel {
                channel_id: fields.temporary_channel_id,
                counterparty: from,
                user_channel_id: 0,
                is_initiator: false,
                config: self.config,
                zero_conf: false,
                confirmation_target: None,
                our_funding_sats: 0,
                their_funding_sats: fields.funding_satoshis,
                stage: Stage::Requested,
                to_send: Vec::new(),
                items: Vec::new(),
                sent_complete: false,
                tx: new_empty_tx(),
                owners: Vec::new(),
                holder_signed: false,
                received_commitment: false,
                sent_signatures: false,
                received_signatures: false,
            },
        );
        self.events.push(
            Event::OpenChannelRequest {
                temporary_channel_id: fields.temporary_channel_id,
                counterparty_node_id: from,
                funding_satoshis: fields.funding_satoshis,
                is_announced: fields.announce_for_forwarding,
                params: InboundChannelFunds::DualFunded,
            },
        );
    }

    /// Accepts the request for a channel that waits under `id`.
    fn accept(
        &mut self,
        id: &ChannelId,
        user_channel_id: u128,
        contribution_sats: u64,
        funding_inputs: Vec<FundingTxInput>,
        zero_conf: bool,
        override_config: Option<UserConfig>,
    )
        requires
            old(self).wf(),
            old(self)@.has_request(*id, old(self)@.channels[*id].counterparty),
            all_valid(view_all(funding_inputs@)),
            total_sats(view_all(funding_inputs@)) >= contribution_sats,
        ensures
            final(self).wf(),
            final(self)@ == old(self)@.after_accept(
                *id,
                user_channel_id,
                contribution_sats,
                view_all(funding_inputs@),
                zero_conf,
                override_config,
            ),
    {
        proof {
            lemma_accept_inv(
                self@,
                *id,
                self@.channels[*id].counterparty,
                user_channel_id,
                contribution_sats,
                view_all(funding_inputs@),
                zero_conf,
                override_config,
            );
            lemma_reinsert(self@, *id);
        }
        let config = self.effective_config(override_config);
        let ghost before = self@;
        let mut c = self.channels.take(id);
        assert(self@ == without(before, *id));
        c.user_channel_id = user_channel_id;
        c.config = config;
        c.zero_conf = zero_conf;
        c.our_funding_sats = contribution_sats;
        c.stage = Stage::Negotiating;
        c.to_send = to_contributions(funding_inputs);
        let msg = AcceptChannelV2 { temporary_channel_id: *id, funding_satoshis: contribution_sats };
        self.messages.push(
            MessageSendEvent::SendAcceptChannelV2 { node_id: c.counterparty, msg },
        );
        self.channels.put(c);
    }

    /// Accepts a channel that `counterparty` has proposed, without contributing to it.
    pub fn accept_inbound_channel(
        &mut self,
        temporary_channel_id: &ChannelId,
        counterparty: &NodeId,
        user_channel_id: u128,
        override_config: Option<UserConfig>,
    ) -> (r: Result<(), APIError>)
        requires
            old(self).wf(),
        ensures
            final(self).wf(),
            r is Ok <==> old(self)@.has_request(*temporary_channel_id, *counterparty),
            match r {
                Ok(_) => final(self)@ == old(self)@.after_accept(
                    *temporary_channel_id,
                    user_channel_id,
                    0,
                    Seq::empty(),
                    false,
                    override_config,
                ),
                Err(e) => {
                    &&& e matches APIError::ChannelUnavailable { err } && err@
                        == "There is no such channel request"@
                    &&& final(self)@ == old(self)@
                },
            },
    {
        if self.stage_refusal(counterparty, temporary_channel_id, Stage::Requested).is_some() {
            return Err(
                APIError::ChannelUnavailable { err: "There is no such channel request".to_owned() },
            );
        }
        let inputs: Vec<FundingTxInput> = Vec::new();
        self.accept(temporary_channel_id, user_channel_id, 0, inputs, false, override_config);
        Ok(())
    }

    /// Accepts a channel that a trusted `counterparty` has proposed, without contributing to
    /// it, and uses it before it is confirmed.
    pub fn accept_inbound_channel_from_trusted_peer_0conf(
        &mut self,
        temporary_channel_id: &ChannelId,
        counterparty: &NodeId,
        user_channel_id: u128,
        override_config: Option<UserConfig>,
    ) -> (r: Result<(), APIError>)
        requires
            old(self).wf(),
        ensures
            final(self).wf(),
            r is Ok <==> old(self)@.has_request(*temporary_channel_id, *counterparty),
            match r {
                Ok(_) => final(self)@ == old(self)@.after_accept(
                    *temporary_channel_id,
                    user_channel_id,
                    0,
                    Seq::empty(),
                    true,
                    override_config,
                ),
                Err(e) => {
                    &&& e matches APIError::ChannelUnavailable { err } && err@
                        == "There is no such channel request"@
                    &&& final(self)@ == old(self)@
                },
            },
    {
        if self.stage_refusal(counterparty, temporary_channel_id, Stage::Requested).is_some() {
            return Err(
                APIError::ChannelUnavailable { err: "There is no such channel request".to_owned() },
            );
        }
        let inputs: Vec<FundingTxInput> = Vec::new();
        self.accept(temporary_channel_id, user_channel_id, 0, inputs, true, override_config);
        Ok(())
    }

    /// Accepts a channel that `counterparty` has proposed, and contributes `contribution_sats`
    /// out of `funding_inputs`.
    pub fn accept_inbound_channel_with_contribution(
        &mut self,
        temporary_channel_id: &ChannelId,
        counterparty: &NodeId,
        user_channel_id: u128,
        contribution_sats: u64,
        funding_inputs: Vec<FundingTxInput>,
        override_config: Option<UserConfig>,
    ) -> (r: Result<(), APIError>)
        requires
            old(self).wf(),
            all_valid(view_all(funding_inputs@)),
        ensures
            final(self).wf(),
            ({
                let inputs = view_all(funding_inputs@);
                let requested = old(self)@.has_request(*temporary_channel_id, *counterparty);
                let covered = total_sats(inputs) >= contribution_sats;
                match r {
                    Ok(_) => requested && covered && final(self)@ == old(self)@.after_accept(
                        *temporary_channel_id,
                        user_channel_id,
                        contribution_sats,
                        inputs,
                        false,
                        override_config,
                    ),
                    Err(APIError::ChannelUnavailable { err }) => {
                        &&& !requested
                        &&& err@ == "There is no such channel request"@
                        &&& final(self)@ == old(self)@
                    },
                    Err(APIError::APIMisuseError { err }) => {
                        &&& requested && !covered
                        &&& err@ == "Funding inputs do not cover the contribution"@
                        &&& final(self)@ == old(self)@
                    },
                }
            }),
    {
        if self.stage_refusal(counterparty, temporary_channel_id, Stage::Requested).is_some() {
            return Err(
                APIError::ChannelUnavailable { err: "There is no such channel request".to_owned() },
            );
        }
        if total_value(&funding_inputs) < contribution_sats as u128 {
            return Err(
                APIError::APIMisuseError {
                    err: "Funding inputs do not cover the contribution".to_owned(),
                },
            );
        }
        self.accept(
            temporary_channel_id,
            user_channel_id,
            contribution_sats,
            funding_inputs,
            false,
            override_config,
        );
        Ok(())
    }

    /// Handles the acceptor's answer to a proposal, and starts the negotiation of the funding
    /// transaction. `funding_script` is the script of the funding output, which the keys of
    /// both sides determine.
    pub fn handle_accept_channel_v2(
        &mut self,
        from: NodeId,
        msg: &AcceptChannelV2,
        funding_script: Vec<u8>,
    )
        requires
            old(self).wf(),
        ensures
            final(self).wf(),
            final(self)@ == old(self)@.after_accept_channel_v2(from, *msg, funding_script@),
    {
        let id = msg.temporary_channel_id;
        proof {
            lemma_accept_channel_inv(self@, from, *msg, funding_script@);
            lemma_reinsert(self@, id);
        }
        if let Some(reason) = self.stage_refusal(&from, &id, Stage::OpenSent) {
            self.refuse(from, reason);
            return;
        }
        let ghost before = self@;
        let mut c = self.channels.take(&id);
        assert(self@ == without(before, id));
        if msg.funding_satoshis > u64::MAX - c.our_funding_sats {
            self.channels.put(c);
            assert(self@.channels =~= before.channels);
            self.refuse(from, ErrorReason::AmountOverflow);
            return;
        }
        let output = TxOut {
            value_sats: c.our_funding_sats + msg.funding_satoshis,
            script_pubkey: funding_script,
        };
        c.their_funding_sats = msg.funding_satoshis;
        c.stage = Stage::Negotiating;
        c.to_send.push(Contribution::Output(output));
        self.reply(c);
    }

    /// Puts an item of the counterparty into the transaction of channel `id`, and replies.
    fn add_item(&mut self, id: &ChannelId, item: TxItem)
        requires
            old(self).wf(),
            old(self)@.stage_refusal(
                old(self)@.channels[*id].counterparty,
                *id,
                Stage::Negotiating,
            ) is None,
        ensures
            final(self).wf(),
            final(self)@ == old(self)@.after_item(*id, item@),
    {
        proof {
            lemma_item_inv(self@, self@.channels[*id].counterparty, *id, item@);
            lemma_reinsert(self@, *id);
        }
        let ghost before = self@;
        let mut c = self.channels.take(id);
        assert(self@ == without(before, *id));
        c.items.push(Negotiated { by_initiator: !c.is_initiator, item });
        self.reply(c);
    }

    /// Whether an input that was put into the transaction of channel `id` spends `outpoint`.
    fn is_spent_in(&self, id: &ChannelId, outpoint: &OutPoint) -> (r: bool)
        requires
            self.wf(),
            self@.channels.contains_key(*id),
        ensures
            r == spends(self@.channels[*id].items, *outpoint),
    {
        is_spent(&self.channels.get(id).unwrap().items, outpoint)
    }

    /// Handles a message that adds an input to the transaction. It is refused unless the input
    /// spends an output of the previous transaction that a witness unlocks and that no input of
    /// the transaction spends yet. Weights are not compared: the message states none.
    pub fn handle_tx_add_input(&mut self, from: NodeId, msg: &TxAddInput)
        requires
            old(self).wf(),
        ensures
            final(self).wf(),
            final(self)@ == old(self)@.after_tx_add_input(
                from,
                msg.channel_id,
                msg.prevtx@,
                msg.prevtx_out,
            ),
    {
        let txid = compute_txid(&msg.prevtx);
        self.handle_tx_add_input_as(from, msg, txid);
    }

    /// As [`Node::handle_tx_add_input`], for a previous transaction whose identifier is known.
    pub fn handle_tx_add_input_as(&mut self, from: NodeId, msg: &TxAddInput, txid: Txid)
        requires
            old(self).wf(),
        ensures
            final(self).wf(),
            final(self)@ == old(self)@.after_tx_add_input_as(
                from,
                msg.channel_id,
                msg.prevtx@,
                msg.prevtx_out,
                txid,
            ),
    {
        if let Some(reason) = self.stage_refusal(&from, &msg.channel_id, Stage::Negotiating) {
            self.refuse(from, reason);
            return;
        }
        let k: usize = msg.prevtx_out as usize;
        let outpoint = OutPoint { txid, vout: msg.prevtx_out };
        if k >= msg.prevtx.output.len() || !is_witness_program(&msg.prevtx.output[k].script_pubkey)
            || self.is_spent_in(&msg.channel_id, &outpoint) {
            self.refuse(from, ErrorReason::InvalidInput);
            return;
        }
        let item = TxItem::Input {
            outpoint,
            value_sats: msg.prevtx.output[k].value_sats,
        };
        self.add_item(&msg.channel_id, item);
    }

    /// Handles a message that adds an output to the transaction.
    pub fn handle_tx_add_output(&mut self, from: NodeId, msg: &TxAddOutput)
        requires
            old(self).wf(),
        ensures
            final(self).wf(),
            final(self)@ == old(self)@.after_tx_add_output(from, msg.channel_id, msg.output@),
    {
        if let Some(reason) = self.stage_refusal(&from, &msg.channel_id, Stage::Negotiating) {
            self.refuse(from, reason);
            return;
        }
        let item = TxItem::Output { output: msg.output.clone() };
        self.add_item(&msg.channel_id, item);
    }

    /// Handles the counterparty's completion of the negotiation.
    pub fn handle_tx_complete(&mut self, from: NodeId, msg: &TxComplete)
        requires
            old(self).wf(),
        ensures
            final(self).wf(),
            final(self)@ == old(self)@.after_tx_complete(from, msg.channel_id),
    {
        let id = msg.channel_id;
        if let Some(reason) = self.stage_refusal(&from, &id, Stage::Negotiating) {
            self.refuse(from, reason);
            return;
        }
        proof {
            lemma_tx_complete_inv(self@, from, id);
            lemma_reinsert(self@, id);
        }
        let ghost before = self@;
        let c = self.channels.take(&id);
        assert(self@ == without(before, id));
        if c.sent_complete {
            self.finish(c);
        } else {
            let done = c.to_send.len() == 0;
            self.reply(c);
            assert(self@ == before.reply(before.channels[id]));
            if done {
                let ghost replied = self@;
                proof {
                    lemma_reinsert(replied, id);
                }
                let c = self.channels.take(&id);
                assert(self@ == without(replied, id));
                self.finish(c);
            }
        }
    }

    /// Handles the user's signatures: `signed` is the funding transaction of channel `id` with
    /// a witness on each of this side's inputs.
    pub fn funding_transaction_signed(
        &mut self,
        id: &ChannelId,
        counterparty: &NodeId,
        signed: Transaction,
    ) -> (r: Result<(), APIError>)
        requires
            old(self).wf(),
        ensures
            final(self).wf(),
            match r {
                Ok(_) => {
                    &&& old(self)@.stage_refusal(*counterparty, *id, Stage::Signing) is None
                    &&& old(self)@.signing_refusal(*id, signed@) is None
                    &&& final(self)@ == old(self)@.after_signed(*id, signed@)
                },
                Err(APIError::ChannelUnavailable { err }) => {
                    &&& old(self)@.stage_refusal(*counterparty, *id, Stage::Signing) is Some
                    &&& err@ == "There is no such channel to sign for"@
                    &&& final(self)@ == old(self)@
                },
                Err(APIError::APIMisuseError { err }) => {
                    &&& old(self)@.stage_refusal(*counterparty, *id, Stage::Signing) is None
                    &&& old(self)@.signing_refusal(*id, signed@) == Some(err@)
                    &&& final(self)@ == old(self)@
                },
            },
    {
        if self.stage_refusal(counterparty, id, Stage::Signing).is_some() {
            return Err(
                APIError::ChannelUnavailable {
                    err: "There is no such channel to sign for".to_owned(),
                },
            );
        }
        let ghost before = self@;
        let mut c = self.channels.take(id);
        let mut refusal: Option<&str> = None;
        if c.holder_signed {
            refusal = Some("The funding transaction is already signed");
        } else if !signed.same_unsigned(&c.tx) {
            refusal = Some("The transaction is not the negotiated one");
        } else {
            assert(signed@.unsigned().input.len() == c.tx@.unsigned().input.len());
            if !is_all_signed(&signed.input, &c.owners, c.is_initiator) {
                refusal = Some("An input of this side is not signed");
            }
        }
        if let Some(err) = refusal {
            self.channels.put(c);
            assert(self@.channels =~= before.channels);
            return Err(APIError::APIMisuseError { err: err.to_owned() });
        }
        proof {
            lemma_signed_inv(before, *counterparty, *id, signed@);
            lemma_reinsert(before, *id);
            lemma_witnesses_of(signed@.input, c.owners@, c.is_initiator);
        }
        let witnesses = collect_witnesses(&signed.input, &c.owners, c.is_initiator);
        assert(witnesses.len() == witness_views(witnesses@).len());
        c.tx.input = put_witnesses(&c.tx.input, &c.owners, c.is_initiator, &witnesses);
        c.holder_signed = true;
        self.send_commitment(c.counterparty, *id);
        self.advance(c);
        Ok(())
    }

    /// Handles the counterparty's commitment signature.
    pub fn handle_commitment_signed(&mut self, from: NodeId, msg: &CommitmentSigned)
        requires
            old(self).wf(),
        ensures
            final(self).wf(),
            final(self)@ == old(self)@.after_commitment_signed(from, msg.channel_id),
    {
        let id = msg.channel_id;
        proof {
            lemma_commitment_signed_inv(self@, from, id);
            lemma_reinsert(self@, id);
        }
        if let Some(reason) = self.stage_refusal(&from, &id, Stage::Signing) {
            self.refuse(from, reason);
            return;
        }
        let ghost before = self@;
        let mut c = self.channels.take(&id);
        if c.received_commitment {
            self.channels.put(c);
            assert(self@.channels =~= before.channels);
            self.refuse(from, ErrorReason::UnexpectedMessage);
            return;
        }
        c.received_commitment = true;
        self.monitors.push(id);
        self.advance(c);
    }

    /// Handles the counterparty's signatures on the funding transaction.
    pub fn handle_tx_signatures(&mut self, from: NodeId, msg: &TxSignatures)
        requires
            old(self).wf(),
        ensures
            final(self).wf(),
            final(self)@ == old(self)@.after_tx_signatures(
                from,
                msg.channel_id,
                witness_views(msg.witnesses@),
            ),
    {
        let id = msg.channel_id;
        proof {
            lemma_tx_signatures_inv(self@, from, id, witness_views(msg.witnesses@));
            lemma_reinsert(self@, id);
        }
        if let Some(reason) = self.stage_refusal(&from, &id, Stage::Signing) {
            self.refuse(from, reason);
            return;
        }
        let ghost before = self@;
        let mut c = self.channels.take(&id);
        let first = self.sends_signatures_first(&c);
        let mut refusal: Option<ErrorReason> = None;
        if !c.received_commitment || c.received_signatures || (first && !c.sent_signatures) {
            refusal = Some(ErrorReason::UnexpectedMessage);
        } else if msg.witnesses.len() != number_owned(&c.owners, !c.is_initiator)
            || has_empty(&msg.witnesses) {
            refusal = Some(ErrorReason::InvalidWitnesses);
        }
        if let Some(reason) = refusal {
            self.channels.put(c);
            assert(self@.channels =~= before.channels);
            self.refuse(from, reason);
            return;
        }
        c.tx.input = put_witnesses(&c.tx.input, &c.owners, !c.is_initiator, &msg.witnesses);
        c.received_signatures = true;
        self.advance(c);
    }
}

impl Node {
    /// Drops the unfunded channels with `peer`, or all of them if `peer` is none.
    fn lose_unfunded(&mut self, peer: Option<NodeId>)
        requires
            old(self).wf(),
        ensures
            final(self).wf(),
            old(self)@.loses_unfunded(peer, final(self)@),
    {
        let ghost before = self@;
        let gone = self.channels.drop_lost(peer);
        let mut k: usize = 0;
        assert(closed_events(gone@).take(0) =~= Seq::empty());
        assert(before.events + closed_events(gone@).take(0) =~= before.events);
        while k < gone.len()
            invariant
                k <= gone.len(),
                self.table_wf(),
                self@ == (NodeView {
                    channels: kept(before.channels, peer),
                    events: before.events + closed_events(gone@).take(k as int),
                    ..before
                }),
            decreases gone.len() - k,
        {
            let c = gone[k];
            let event = Event::ChannelClosed {
                channel_id: c.channel_id,
                counterparty_node_id: c.counterparty,
                user_channel_id: c.user_channel_id,
            };
            assert(event@ == closed_events(gone@)[k as int]);
            self.events.push(event);
            k = k + 1;
            assert(self@.events =~= before.events + closed_events(gone@).take(k as int));
        }
        assert(closed_events(gone@).take(k as int) =~= closed_events(gone@));
        assert(lists_lost(before.channels, peer, gone@));
        assert(self@.inv()) by {
            assert forall|id: ChannelId| #[trigger] self@.channels.contains_key(id) implies (
            self@.channels[id].inv() && self@.channels[id].channel_id == id) by {
                assert(before.channels.contains_key(id));
            }
        }
    }

    /// `peer` has disconnected: channels with it whose funding transaction is not complete are
    /// dropped, and cannot be resumed.
    pub fn peer_disconnected(&mut self, peer: NodeId)
        requires
            old(self).wf(),
        ensures
            final(self).wf(),
            old(self)@.loses_unfunded(Some(peer), final(self)@),
    {
        self.lose_unfunded(Some(peer));
    }

    /// The node is started again: channels whose funding transaction is not complete were not
    /// stored, and are gone.
    pub fn restart(&mut self)
        requires
            old(self).wf(),
        ensures
            final(self).wf(),
            old(self)@.loses_unfunded(None, final(self)@),
    {
        self.lose_unfunded(None);
    }
}

/// Whether any of the witnesses is empty.
fn has_empty(witnesses: &Vec<Witness>) -> (r: bool)
    ensures
        r == !none_empty(witness_views(witnesses@)),
{
    let ghost all = witness_views(witnesses@);
    let mut k: usize = 0;
    while k < witnesses.len()
        invariant
            k <= witnesses.len(),
            all == witness_views(witnesses@),
            forall|j: int| 0 <= j < k ==> (#[trigger] all[j]).len() > 0,
        decreases witnesses.len() - k,
    {
        assert(all[k as int].len() == witnesses[k as int].len());
        if witnesses[k].len() == 0 {
            return true;
        }
        k = k + 1;
    }
    false
}

/// The output of a wallet's funding input: `value_sats` paid to the wallet's key.
pub open spec fn wallet_output(wallet: WalletView, value_sats: u64) -> TxOutView {
    TxOutView { value_sats, script_pubkey: p2wpkh_script_of(wallet.key_hash) }
}

/// Creates a funding input that the wallet of `node` can sign, and adds the output that it
/// spends to the wallet.
pub fn create_wallet_funding_input(node: &mut Node, value_sats: u64) -> (r: FundingTxInput)
    requires
        old(node).wf(),
    ensures
        final(node).wf(),
        ({
            let prevtx = single_output_tx(wallet_output(old(node)@.wallet, value_sats));
            let txid = txid_of(prevtx.unsigned());
            &&& r@ == input_spending(prevtx, 0, txid)
            &&& r@.valid()
            &&& r@.output.value_sats == value_sats
            &&& r@.output.script_pubkey == seq![0u8, 20u8] + old(node)@.wallet.key_hash
            &&& r@.outpoint.vout == 0
            &&& r@.prevtx.version == 2 && r@.prevtx.lock_time == 0
            &&& r@.prevtx.input.len() == 0
            &&& r@.prevtx.output == seq![r@.output]
            &&& final(node)@.wallet.utxos.last().outpoint == r@.outpoint
            &&& final(node)@.wallet.utxos.last().txout == r@.output
            &&& final(node)@.wallet.utxos.last().confirmed
            &&& final(node)@ == (NodeView {
                wallet: old(node)@.wallet.with_utxo(txid, prevtx, 0, true),
                ..old(node)@
            })
            &&& final(node)@.wallet.owns(r@.outpoint)
        }),
{
    let script_pubkey = node.wallet.get_change_script();
    let prevout = TxOut { value_sats, script_pubkey };
    let prevtx = make_single_output_tx(prevout);
    let ghost before = node@.wallet;
    node.wallet.add_utxo(prevtx.clone(), 0);
    let input = FundingTxInput::new_p2wpkh(prevtx, 0).unwrap();
    proof {
        use_type_invariant(&node.wallet);
        let k = before.utxos.len() as int;
        assert(node@.wallet.utxos[k].outpoint == input@.outpoint);
    }
    input
}

/// Whether any of the inputs belongs to `who`.
fn owns_any(owners: &Vec<bool>, who: bool) -> (r: bool)
    ensures
        r == owners@.contains(who),
{
    let mut k: usize = 0;
    while k < owners.len()
        invariant
            k <= owners.len(),
            forall|j: int| 0 <= j < k ==> owners@[j] != who,
        decreases owners.len() - k,
    {
        if owners[k] == who {
            return true;
        }
        k = k + 1;
    }
    false
}

} // verus!
