//! Laws of the calls on a node: what each of them changes, and what it leaves alone.

use vstd::prelude::*;
use crate::bitcoin_calls::txid_of;
use crate::channel::{Channel, ChannelView, ConfirmationTarget, Stage};
use crate::config::UserConfig;
use crate::funding::{total_sats, FundingTxInputView};
use crate::ids::{lex_before, ChannelId, NodeId, OutPoint};
use crate::items::{input_sats, owners_of, outpoint_of, spends, ContributionView, NegotiatedView};
use crate::items::{funding_tx, items_by, Contribution, TxItem, TxItemView};
use crate::messages::{AcceptChannelV2, CommitmentSigned, ErrorReason, Event, EventView};
use crate::messages::{InboundChannelFunds, MessageSendEvent, MessageView, OpenChannelV2};
use crate::model::NodeView;
use crate::negotiation::negotiated;
use crate::tx::{Transaction, TransactionView, TxOutView};
use crate::witness::{lemma_witnesses_of, witness_views, witnesses_of, Witness};
use crate::witness_laws::{law_witnesses_are_put_in_order, rank};

verus! {

/// `after` is `n` but for its channel `id` and its queues: its key, settings and wallet and its
/// other channels are the same.
pub open spec fn same_elsewhere(n: NodeView, after: NodeView, id: ChannelId) -> bool {
    &&& after.id == n.id
    &&& after.config == n.config
    &&& after.wallet == n.wallet
    &&& after.channels.contains_key(id)
    &&& forall|other: ChannelId|
        other != id ==> (#[trigger] after.channels.contains_key(other)
            <==> n.channels.contains_key(other))
    &&& forall|other: ChannelId|
        other != id && n.channels.contains_key(other) ==> #[trigger] after.channels[other]
            == n.channels[other]
}

/// `after` has raised no event, broadcast nothing and added no monitor since `n`.
pub open spec fn quiet(n: NodeView, after: NodeView) -> bool {
    &&& after.events == n.events
    &&& after.broadcast == n.broadcast
    &&& after.monitors == n.monitors
}

/// `after` has queued exactly one more message than `n`.
pub open spec fn one_more_message(n: NodeView, after: NodeView) -> bool {
    &&& after.messages.len() == n.messages.len() + 1
    &&& after.messages.drop_last() == n.messages
}

/// The signatures of a channel have not been exchanged, nor has it anything to sign.
pub open spec fn nothing_signed(c: ChannelView) -> bool {
    &&& !c.sent_complete
    &&& !c.holder_signed
    &&& !c.received_commitment
    &&& !c.sent_signatures
    &&& !c.received_signatures
    &&& c.items.len() == 0
    &&& c.owners.len() == 0
    &&& c.tx.input.len() == 0
    &&& c.tx.output.len() == 0
}

/// Creating a channel is refused exactly if dual funding is off, the channel is worth less than
/// 1000 satoshis, the inputs do not cover it, or there is a channel of that name.
pub proof fn law_creation_is_refused_for_cause(
    n: NodeView,
    funding_sats: u64,
    inputs: Seq<FundingTxInputView>,
    id: ChannelId,
)
    ensures
        n.create_refusal(funding_sats, inputs, id) is None <==> {
            &&& n.config.enable_dual_funded_channels
            &&& funding_sats >= 1_000
            &&& total_sats(inputs) >= funding_sats
            &&& !n.channels.contains_key(id)
        },
{
}

/// Creating a channel adds one at its first stage, with the caller's terms and inputs, and queues
/// the proposal of it for the counterparty.
pub proof fn law_creation_proposes_the_channel(
    n: NodeView,
    counterparty: NodeId,
    funding_sats: u64,
    inputs: Seq<FundingTxInputView>,
    user_channel_id: u128,
    override_config: Option<UserConfig>,
    target: ConfirmationTarget,
    id: ChannelId,
)
    ensures
        ({
            let after = n.after_create(
                counterparty,
                funding_sats,
                inputs,
                user_channel_id,
                override_config,
                target,
                id,
            );
            let c = after.channels[id];
            &&& same_elsewhere(n, after, id)
            &&& quiet(n, after)
            &&& one_more_message(n, after)
            &&& c.channel_id == id && c.counterparty == counterparty
            &&& c.user_channel_id == user_channel_id
            &&& c.is_initiator && !c.zero_conf
            &&& c.stage == Stage::OpenSent
            &&& c.our_funding_sats == funding_sats && c.their_funding_sats == 0
            &&& c.confirmation_target == Some(target)
            &&& override_config matches Some(config) ==> c.config == config
            &&& override_config is None ==> c.config == n.config
            &&& nothing_signed(c)
            &&& c.to_send.len() == inputs.len()
            &&& forall|k: int|
                0 <= k < inputs.len() ==> #[trigger] c.to_send[k] == ContributionView::Input(
                    inputs[k],
                )
            &&& after.messages.last() matches MessageView::OpenChannelV2 { to, msg } && {
                &&& to == counterparty
                &&& msg.common_fields.temporary_channel_id == id
                &&& msg.common_fields.funding_satoshis == funding_sats
                &&& msg.common_fields.announce_for_forwarding == c.config.announce_for_forwarding
            }
        }),
{
    let after = n.after_create(
        counterparty,
        funding_sats,
        inputs,
        user_channel_id,
        override_config,
        target,
        id,
    );
    assert(after.messages.drop_last() =~= n.messages);
}

/// A proposal makes the node ask its user about that very channel: its name, its value, whether
/// it is announced, and on whose behalf. The request waits under that name. A node with dual
/// funding off, or with a channel of that name, answers with an error instead, and nothing else
/// happens.
pub proof fn law_request_shows_the_proposal(n: NodeView, from: NodeId, msg: OpenChannelV2)
    ensures
        ({
            let after = n.after_open_channel_v2(from, msg);
            let fields = msg.common_fields;
            let id = fields.temporary_channel_id;
            let c = after.channels[id];
            if n.config.enable_dual_funded_channels && !n.channels.contains_key(id) {
                &&& same_elsewhere(n, after, id)
                &&& after.messages == n.messages
                &&& after.broadcast == n.broadcast
                &&& after.monitors == n.monitors
                &&& after.events.len() == n.events.len() + 1
                &&& after.events.drop_last() == n.events
                &&& after.events.last() matches EventView::OpenChannelRequest {
                    temporary_channel_id,
                    counterparty_node_id,
                    funding_satoshis,
                    is_announced,
                    params,
                } && {
                    &&& temporary_channel_id == id
                    &&& counterparty_node_id == from
                    &&& funding_satoshis == fields.funding_satoshis
                    &&& is_announced == fields.announce_for_forwarding
                    &&& params == InboundChannelFunds::DualFunded
                }
                &&& c.channel_id == id && c.counterparty == from
                &&& !c.is_initiator && !c.zero_conf
                &&& c.stage == Stage::Requested
                &&& c.our_funding_sats == 0
                &&& c.their_funding_sats == fields.funding_satoshis
                &&& c.config == n.config
                &&& c.confirmation_target is None
                &&& c.to_send.len() == 0
                &&& nothing_signed(c)
            } else {
                &&& one_more_message(n, after)
                &&& after.messages.last() is Error
                &&& after.messages.last()->Error_to == from
                &&& after == (NodeView { messages: after.messages, ..n })
                &&& (after.messages.last()->Error_reason == ErrorReason::DualFundingDisabled)
                    == !n.config.enable_dual_funded_channels
                &&& after.messages.last()->Error_reason == ErrorReason::DualFundingDisabled
                    || after.messages.last()->Error_reason == ErrorReason::DuplicateChannel
            }
        }),
{
    let after = n.after_open_channel_v2(from, msg);
    if n.config.enable_dual_funded_channels && !n.channels.contains_key(
        msg.common_fields.temporary_channel_id,
    ) {
        assert(after.events.drop_last() =~= n.events);
    } else {
        assert(after.messages.drop_last() =~= n.messages);
    }
}

/// Accepting a request answers it with the contribution, and opens the negotiation on this side
/// with the given inputs; what the counterparty has proposed stays as it was.
pub proof fn law_acceptance_answers_the_request(
    n: NodeView,
    id: ChannelId,
    counterparty: NodeId,
    user_channel_id: u128,
    contribution_sats: u64,
    inputs: Seq<FundingTxInputView>,
    zero_conf: bool,
    override_config: Option<UserConfig>,
)
    requires
        n.inv(),
        n.has_request(id, counterparty),
    ensures
        n.channels.contains_key(id),
        n.channels[id].stage == Stage::Requested,
        n.channels[id].counterparty == counterparty,
        ({
            let after = n.after_accept(
                id,
                user_channel_id,
                contribution_sats,
                inputs,
                zero_conf,
                override_config,
            );
            let c = n.channels[id];
            let d = after.channels[id];
            &&& same_elsewhere(n, after, id)
            &&& quiet(n, after)
            &&& one_more_message(n, after)
            &&& after.messages.last() matches MessageView::AcceptChannelV2 { to, msg } && {
                &&& to == counterparty
                &&& msg.temporary_channel_id == id
                &&& msg.funding_satoshis == contribution_sats
            }
            &&& d.channel_id == id && d.counterparty == counterparty
            &&& !d.is_initiator
            &&& d.user_channel_id == user_channel_id
            &&& d.zero_conf == zero_conf
            &&& override_config matches Some(config) ==> d.config == config
            &&& override_config is None ==> d.config == n.config
            &&& d.our_funding_sats == contribution_sats
            &&& d.their_funding_sats == c.their_funding_sats
            &&& d.confirmation_target == c.confirmation_target
            &&& d.stage == Stage::Negotiating
            &&& d.items.len() == 0 && d.owners.len() == 0 && d.tx.input.len() == 0
            &&& !d.sent_complete && !d.holder_signed && !d.received_commitment
            &&& !d.sent_signatures && !d.received_signatures
            &&& d.to_send.len() == inputs.len()
            &&& forall|k: int|
                0 <= k < inputs.len() ==> #[trigger] d.to_send[k] == ContributionView::Input(
                    inputs[k],
                )
        }),
{
    let after = n.after_accept(
        id,
        user_channel_id,
        contribution_sats,
        inputs,
        zero_conf,
        override_config,
    );
    assert(n.channels.contains_key(id));
    assert(n.channels[id].inv());
    assert(after.messages.drop_last() =~= n.messages);
}

/// A request for a channel waits exactly if the counterparty has proposed one of that name that
/// was not answered yet.
pub proof fn law_requests_wait_for_an_answer(n: NodeView, id: ChannelId, counterparty: NodeId)
    ensures
        n.has_request(id, counterparty) <==> {
            &&& n.channels.contains_key(id)
            &&& n.channels[id].counterparty == counterparty
            &&& n.channels[id].stage == Stage::Requested
        },
{
}

/// A message is in place exactly if it comes from the counterparty of the channel that it names,
/// and the channel is at the stage for it. Otherwise the sender is told that there is no such
/// channel of theirs, or that the message was not expected.
pub proof fn law_messages_are_in_place(n: NodeView, from: NodeId, id: ChannelId, stage: Stage)
    ensures
        ({
            let theirs = n.channels.contains_key(id) && n.channels[id].counterparty == from;
            &&& n.stage_refusal(from, id, stage) is None <==> theirs && n.channels[id].stage
                == stage
            &&& n.stage_refusal(from, id, stage) == Some(ErrorReason::UnknownChannel) <==> !theirs
            &&& n.stage_refusal(from, id, stage) == Some(ErrorReason::UnexpectedMessage)
                <==> theirs && n.channels[id].stage != stage
        }),
{
}

/// A message that is out of place changes nothing, and is answered with an error: an answer to
/// anything but a proposal of this side, a step of a negotiation outside of one, and signatures
/// when there is nothing to sign.
pub proof fn law_messages_out_of_place_change_nothing(
    n: NodeView,
    from: NodeId,
    id: ChannelId,
    stage: Stage,
    reason: ErrorReason,
    answer: AcceptChannelV2,
    script: Seq<u8>,
    prevtx: TransactionView,
    vout: u32,
    output: TxOutView,
    witnesses: Seq<Seq<Seq<u8>>>,
)
    requires
        n.stage_refusal(from, id, stage) == Some(reason),
        answer.temporary_channel_id == id,
    ensures
        ({
            let refused = NodeView {
                messages: n.messages.push(MessageView::Error { to: from, reason }),
                ..n
            };
            &&& stage == Stage::OpenSent ==> n.after_accept_channel_v2(from, answer, script)
                == refused
            &&& stage == Stage::Negotiating ==> {
                &&& n.after_tx_add_input(from, id, prevtx, vout) == refused
                &&& n.after_tx_add_output(from, id, output) == refused
                &&& n.after_tx_complete(from, id) == refused
            }
            &&& stage == Stage::Signing ==> {
                &&& n.after_commitment_signed(from, id) == refused
                &&& n.after_tx_signatures(from, id, witnesses) == refused
            }
        }),
{
}

/// A side that takes its turn puts in the first thing that it has left, tells the counterparty
/// exactly what, and has the rest left; a side that has nothing left says so.
pub proof fn law_turn_puts_in_what_comes_next(n: NodeView, c: ChannelView)
    ensures
        ({
            let after = n.reply(c);
            let id = c.channel_id;
            let d = after.channels[id];
            let message = after.messages.last();
            &&& same_elsewhere(n, after, id)
            &&& quiet(n, after)
            &&& one_more_message(n, after)
            &&& d == (ChannelView {
                to_send: d.to_send,
                items: d.items,
                sent_complete: d.sent_complete,
                ..c
            })
            &&& if c.to_send.len() == 0 {
                &&& message == (MessageView::TxComplete { to: c.counterparty, channel_id: id })
                &&& d.sent_complete
                &&& d.items == c.items
                &&& d.to_send == c.to_send
            } else {
                let put = d.items.last();
                &&& !d.sent_complete
                &&& d.items.len() == c.items.len() + 1
                &&& d.items.drop_last() == c.items
                &&& put.by_initiator == c.is_initiator
                &&& d.to_send.len() + 1 == c.to_send.len()
                &&& forall|k: int|
                    0 <= k < d.to_send.len() ==> #[trigger] d.to_send[k] == c.to_send[k + 1]
                &&& match c.to_send[0] {
                    ContributionView::Input(input) => {
                        &&& message == (MessageView::TxAddInput {
                            to: c.counterparty,
                            channel_id: id,
                            prevtx: input.prevtx,
                            prevtx_out: input.outpoint.vout,
                        })
                        &&& put.item == (TxItemView::Input {
                            outpoint: input.outpoint,
                            value_sats: input.output.value_sats,
                        })
                    },
                    ContributionView::Output(output) => {
                        &&& message == (MessageView::TxAddOutput {
                            to: c.counterparty,
                            channel_id: id,
                            output,
                        })
                        &&& put.item == (TxItemView::Output { output })
                    },
                }
            }
        }),
{
    let after = n.reply(c);
    assert(after.messages.drop_last() =~= n.messages);
    if c.to_send.len() > 0 {
        assert(after.channels[c.channel_id].items.drop_last() =~= c.items);
    }
}

/// An answer to a proposal starts the negotiation: what the acceptor contributes is noted, and
/// after its inputs this side is going to put in one output, which holds what both contribute, for
/// the funding script. An answer that would make that amount too large is refused.
pub proof fn law_answer_settles_the_funding_output(
    n: NodeView,
    from: NodeId,
    msg: AcceptChannelV2,
    script: Seq<u8>,
)
    requires
        n.inv(),
        n.stage_refusal(from, msg.temporary_channel_id, Stage::OpenSent) is None,
    ensures
        ({
            let id = msg.temporary_channel_id;
            let c = n.channels[id];
            let after = n.after_accept_channel_v2(from, msg, script);
            let d = after.channels[id];
            let all = d.items.len() + d.to_send.len();
            if c.our_funding_sats + msg.funding_satoshis > u64::MAX {
                after == (NodeView {
                    messages: n.messages.push(
                        MessageView::Error { to: from, reason: ErrorReason::AmountOverflow },
                    ),
                    ..n
                })
            } else {
                &&& same_elsewhere(n, after, id)
                &&& quiet(n, after)
                &&& one_more_message(n, after)
                &&& d.stage == Stage::Negotiating
                &&& d.is_initiator && d.counterparty == from
                &&& d.our_funding_sats == c.our_funding_sats
                &&& d.their_funding_sats == msg.funding_satoshis
                &&& d == (ChannelView {
                    their_funding_sats: msg.funding_satoshis,
                    stage: Stage::Negotiating,
                    to_send: d.to_send,
                    items: d.items,
                    ..c
                })
                &&& c.to_send[0] matches ContributionView::Input(input) && {
                    &&& after.messages.last() == (MessageView::TxAddInput {
                        to: from,
                        channel_id: id,
                        prevtx: input.prevtx,
                        prevtx_out: input.outpoint.vout,
                    })
                    &&& d.items[0] == (NegotiatedView {
                        by_initiator: true,
                        item: TxItemView::Input {
                            outpoint: input.outpoint,
                            value_sats: input.output.value_sats,
                        },
                    })
                }
                &&& all == c.to_send.len() + 1
                &&& d.items.len() == 1
                &&& d.to_send.last() matches ContributionView::Output(output) && {
                    &&& output.value_sats == c.our_funding_sats + msg.funding_satoshis
                    &&& output.script_pubkey == script
                }
                &&& forall|k: int|
                    0 <= k < d.to_send.len() - 1 ==> #[trigger] d.to_send[k] == c.to_send[k + 1]
            }
        }),
{
    let id = msg.temporary_channel_id;
    let c = n.channels[id];
    assert(n.channels.contains_key(id));
    assert(c.inv());
    assert(c.to_send.len() > 0) by {
        if c.to_send.len() == 0 {
            assert(input_sats(c.items, true) == 0);
            assert(input_sats(items_by(c.to_send, true), true) == 0);
        }
    }
    assert(c.to_send[0] is Input);
    let after = n.after_accept_channel_v2(from, msg, script);
    if c.our_funding_sats + msg.funding_satoshis <= u64::MAX {
        assert(after.messages.drop_last() =~= n.messages);
    }
}

/// An input that the counterparty adds is the output of the transaction that it has sent, at the
/// place that it has named, with the amount that stands there; it counts as the counterparty's,
/// and this side then takes its turn. It is refused if there is no such output, if no witness
/// unlocks it, or if an input spends it already.
pub proof fn law_added_input_spends_what_was_sent(
    n: NodeView,
    from: NodeId,
    id: ChannelId,
    prevtx: TransactionView,
    vout: u32,
)
    requires
        n.inv(),
        n.stage_refusal(from, id, Stage::Negotiating) is None,
    ensures
        ({
            let c = n.channels[id];
            let outpoint = OutPoint { txid: txid_of(prevtx.unsigned()), vout };
            let output = prevtx.output[vout as int];
            let script = output.script_pubkey;
            let spent = exists|k: int|
                0 <= k < c.items.len() && (#[trigger] c.items[k]).item is Input
                    && c.items[k].item->outpoint == outpoint;
            let witness_script = 4 <= script.len() <= 42 && (script[0] == 0 || 0x51 <= script[0]
                <= 0x60) && script[1] == script.len() - 2;
            let after = n.after_tx_add_input(from, id, prevtx, vout);
            if vout < prevtx.output.len() && witness_script && !spent {
                let d = ChannelView {
                    items: c.items.push(
                        NegotiatedView {
                            by_initiator: !c.is_initiator,
                            item: TxItemView::Input { outpoint, value_sats: output.value_sats },
                        },
                    ),
                    ..c
                };
                after == n.reply(d)
            } else {
                after == (NodeView {
                    messages: n.messages.push(
                        MessageView::Error { to: from, reason: ErrorReason::InvalidInput },
                    ),
                    ..n
                })
            }
        }),
{
    let c = n.channels[id];
    let outpoint = OutPoint { txid: txid_of(prevtx.unsigned()), vout };
    if spends(c.items, outpoint) {
        let k = choose|k: int|
            0 <= k < c.items.len() && outpoint_of((#[trigger] c.items[k]).item) == Some(outpoint);
        assert(c.items[k].item is Input && c.items[k].item->outpoint == outpoint);
    }
    if exists|k: int|
        0 <= k < c.items.len() && (#[trigger] c.items[k]).item is Input && c.items[k].item->outpoint
            == outpoint {
        let k = choose|k: int|
            0 <= k < c.items.len() && (#[trigger] c.items[k]).item is Input
                && c.items[k].item->outpoint == outpoint;
        assert(outpoint_of(c.items[k].item) == Some(outpoint));
    }
}

/// An output that the counterparty adds is the one that it has sent; it counts as the
/// counterparty's, and this side then takes its turn.
pub proof fn law_added_output_is_what_was_sent(
    n: NodeView,
    from: NodeId,
    id: ChannelId,
    output: TxOutView,
)
    requires
        n.stage_refusal(from, id, Stage::Negotiating) is None,
    ensures
        ({
            let c = n.channels[id];
            n.after_tx_add_output(from, id, output) == n.reply(
                ChannelView {
                    items: c.items.push(
                        NegotiatedView {
                            by_initiator: !c.is_initiator,
                            item: TxItemView::Output { output },
                        },
                    ),
                    ..c
                },
            )
        }),
{
}

/// An item has an owner among the owners exactly if it is an input.
proof fn lemma_owners_contain(items: Seq<NegotiatedView>, who: bool)
    ensures
        owners_of(items).contains(who) <==> exists|k: int|
            0 <= k < items.len() && (#[trigger] items[k]).item is Input && items[k].by_initiator
                == who,
    decreases items.len(),
{
    if items.len() > 0 {
        let rest = items.drop_last();
        let last = items[items.len() - 1];
        let owners = owners_of(items);
        lemma_owners_contain(rest, who);
        if exists|k: int|
            0 <= k < items.len() && (#[trigger] items[k]).item is Input && items[k].by_initiator
                == who {
            let k = choose|k: int|
                0 <= k < items.len() && (#[trigger] items[k]).item is Input
                    && items[k].by_initiator == who;
            if k < rest.len() {
                assert(rest[k] == items[k]);
                let j = choose|j: int|
                    0 <= j < owners_of(rest).len() && owners_of(rest)[j] == who;
                assert(owners[j] == who);
            } else {
                assert(owners[owners.len() - 1] == who);
            }
        }
        if owners.contains(who) {
            let j = choose|j: int| 0 <= j < owners.len() && owners[j] == who;
            if j < owners_of(rest).len() {
                assert(owners_of(rest)[j] == who);
                let k = choose|k: int|
                    0 <= k < rest.len() && (#[trigger] rest[k]).item is Input
                        && rest[k].by_initiator == who;
                assert(items[k] == rest[k]);
            } else {
                assert(last.item is Input && last.by_initiator == who);
            }
        }
    }
}

/// When a negotiation ends, the transaction is made of what was put in, and signatures are due. A
/// side that has put in an input asks its user to sign that transaction, and sends nothing; a side
/// that has put in none counts as having signed, sends its commitment signature, and asks nobody.
pub proof fn law_end_of_negotiation_asks_for_signatures(n: NodeView, c: ChannelView)
    ensures
        ({
            let id = c.channel_id;
            let after = n.finish(c);
            let d = after.channels[id];
            let has_input = exists|k: int|
                0 <= k < c.items.len() && (#[trigger] c.items[k]).item is Input
                    && c.items[k].by_initiator == c.is_initiator;
            &&& same_elsewhere(n, after, id)
            &&& after.broadcast == n.broadcast
            &&& after.monitors == n.monitors
            &&& d == (ChannelView {
                stage: Stage::Signing,
                tx: funding_tx(c.items),
                owners: owners_of(c.items),
                holder_signed: !has_input,
                ..c
            })
            &&& if has_input {
                &&& after.messages == n.messages
                &&& after.events == n.events.push(
                    EventView::FundingTransactionReadyForSigning {
                        channel_id: id,
                        counterparty_node_id: c.counterparty,
                        user_channel_id: c.user_channel_id,
                        unsigned_transaction: funding_tx(c.items),
                    },
                )
            } else {
                &&& after.events == n.events
                &&& after.messages == n.messages.push(
                    MessageView::CommitmentSigned {
                        to: c.counterparty,
                        commitment_signed: seq![CommitmentSigned { channel_id: id }],
                    },
                )
            }
        }),
{
    lemma_owners_contain(c.items, c.is_initiator);
}

/// Nodes whose negotiation is over have handed out their messages, have put in `items` and have
/// nothing left, and have ended it; what the channel is about stays as it was.
pub proof fn law_negotiated_channel_keeps_its_terms(
    n: NodeView,
    id: ChannelId,
    items: Seq<NegotiatedView>,
)
    requires
        n.channels[id].channel_id == id,
    ensures
        ({
            let c = n.channels[id];
            let after = negotiated(n, id, items);
            let d = after.channels[id];
            &&& same_elsewhere(n, after, id)
            &&& after.broadcast == n.broadcast
            &&& after.monitors == n.monitors
            &&& d.items == items
            &&& d.to_send.len() == 0
            &&& d.stage == Stage::Signing
            &&& d.counterparty == c.counterparty && d.channel_id == id
            &&& d.is_initiator == c.is_initiator
            &&& d.user_channel_id == c.user_channel_id
            &&& d.config == c.config && d.zero_conf == c.zero_conf
            &&& d.our_funding_sats == c.our_funding_sats
            &&& d.their_funding_sats == c.their_funding_sats
            &&& d.received_commitment == c.received_commitment
            &&& d.sent_signatures == c.sent_signatures
            &&& d.received_signatures == c.received_signatures
        }),
{
}

/// A completion ends the negotiation exactly if this side has said the same just before or has
/// nothing left, in which case it says so first; otherwise this side takes its turn.
pub proof fn law_completion_ends_or_goes_on(n: NodeView, from: NodeId, id: ChannelId)
    requires
        n.inv(),
        n.stage_refusal(from, id, Stage::Negotiating) is None,
    ensures
        ({
            let c = n.channels[id];
            let after = n.after_tx_complete(from, id);
            &&& c.sent_complete ==> after == n.finish(c)
            &&& !c.sent_complete && c.to_send.len() > 0 ==> after == n.reply(c)
            &&& !c.sent_complete && c.to_send.len() == 0 ==> after == n.reply(c).finish(
                n.reply(c).channels[id],
            )
            &&& after.channels[id].stage == Stage::Signing <==> c.to_send.len() == 0
        }),
{
    assert(n.channels.contains_key(id));
    assert(n.channels[id].inv());
}

/// The side that has put in less reveals its signatures first; of two that have put in the same,
/// the one whose key is lower.
pub proof fn law_lesser_contribution_signs_first(n: NodeView, c: ChannelView)
    ensures
        ({
            let ours = input_sats(c.items, c.is_initiator);
            let theirs = input_sats(c.items, !c.is_initiator);
            &&& ours < theirs ==> n.sends_signatures_first(c)
            &&& ours > theirs ==> !n.sends_signatures_first(c)
            &&& ours == theirs ==> n.sends_signatures_first(c) == lex_before(
                n.id.bytes@,
                c.counterparty.bytes@,
            )
        }),
{
}

/// Of two keys that begin alike, the one with the lower byte at the first difference is lower.
pub proof fn law_keys_are_ordered_by_their_first_difference(
    start: Seq<u8>,
    x: u8,
    y: u8,
    a: Seq<u8>,
    b: Seq<u8>,
)
    requires
        x < y,
    ensures
        lex_before(start + seq![x] + a, start + seq![y] + b),
        !lex_before(start + seq![y] + b, start + seq![x] + a),
        !lex_before(start, start),
{
    let s = start + seq![x] + a;
    let t = start + seq![y] + b;
    let m = start.len() as int;
    assert(s[m] == x && t[m] == y);
    assert(forall|j: int| 0 <= j < m ==> s[j] == t[j]);
    if lex_before(t, s) {
        let k = choose|k: int|
            0 <= k < t.len() && k < s.len() && t[k] < s[k] && forall|j: int|
                0 <= j < k ==> t[j] == s[j];
        if k > m {
            assert(t[m] == s[m]);
        }
        assert(false);
    }
}

/// A change of a channel under signature makes this side send its signatures, exactly if it has
/// signed, holds the counterparty's commitment signature, has not sent them before, and goes first
/// or has the counterparty's; and makes it broadcast the transaction and tell the user, exactly if
/// both sides' signatures have then been exchanged. Nothing else happens.
pub proof fn law_signatures_are_sent_and_broadcast_in_time(n: NodeView, c: ChannelView)
    ensures
        ({
            let id = c.channel_id;
            let after = n.advance(c);
            let d = after.channels[id];
            let sends = c.holder_signed && c.received_commitment && !c.sent_signatures && (
            n.sends_signatures_first(c) || c.received_signatures);
            let done = (c.sent_signatures || sends) && c.received_signatures;
            &&& same_elsewhere(n, after, id)
            &&& after.monitors == n.monitors
            &&& d == (ChannelView {
                sent_signatures: c.sent_signatures || sends,
                stage: if done {
                    Stage::Broadcast
                } else {
                    c.stage
                },
                ..c
            })
            &&& if sends {
                &&& one_more_message(n, after)
                &&& after.messages.last() matches MessageView::TxSignatures {
                    to,
                    channel_id,
                    witnesses,
                } && {
                    &&& to == c.counterparty
                    &&& channel_id == id
                    &&& witnesses == witnesses_of(
                        c.tx.input,
                        c.owners,
                        c.is_initiator,
                    )
                }
            } else {
                after.messages == n.messages
            }
            &&& if done {
                &&& after.broadcast == n.broadcast.push(c.tx)
                &&& after.events == n.events.push(
                    EventView::ChannelPending {
                        channel_id: id,
                        counterparty_node_id: c.counterparty,
                        user_channel_id: c.user_channel_id,
                    },
                )
            } else {
                &&& after.broadcast == n.broadcast
                &&& after.events == n.events
            }
        }),
{
    let after = n.advance(c);
    if n.can_send_signatures(c) {
        assert(after.messages.drop_last() =~= n.messages);
    }
}

/// The user's signatures are refused exactly if the transaction is signed already, is not the
/// negotiated one, or lacks a witness on an input of this side.
pub proof fn law_users_signatures_are_refused_for_cause(
    n: NodeView,
    id: ChannelId,
    signed: TransactionView,
)
    ensures
        ({
            let c = n.channels[id];
            n.signing_refusal(id, signed) is None <==> {
                &&& !c.holder_signed
                &&& signed.unsigned() == c.tx.unsigned()
                &&& forall|k: int|
                    0 <= k < signed.input.len() && c.owners[k] == c.is_initiator ==> (
                    #[trigger] signed.input[k]).witness.len() > 0
            }
        }),
{
}

/// The user's signatures go on this side's inputs, each where it stands, and the counterparty's
/// inputs stay as they are. The commitment signature is queued.
pub proof fn law_users_signatures_are_put_in_place(
    n: NodeView,
    from: NodeId,
    id: ChannelId,
    signed: TransactionView,
)
    requires
        n.inv(),
        n.stage_refusal(from, id, Stage::Signing) is None,
        n.signing_refusal(id, signed) is None,
    ensures
        ({
            let c = n.channels[id];
            let after = n.after_signed(id, signed);
            let d = after.channels[id];
            &&& same_elsewhere(n, after, id)
            &&& after.monitors == n.monitors
            &&& after.messages.len() > n.messages.len()
            &&& after.messages.take(n.messages.len() as int) == n.messages
            &&& after.messages[n.messages.len() as int] == (MessageView::CommitmentSigned {
                to: c.counterparty,
                commitment_signed: seq![CommitmentSigned { channel_id: id }],
            })
            &&& after == (NodeView {
                messages: n.messages.push(after.messages[n.messages.len() as int]),
                ..n
            }).advance(ChannelView { holder_signed: true, tx: d.tx, ..c })
            &&& d.holder_signed
            &&& d.items == c.items && d.owners == c.owners
            &&& d.received_commitment == c.received_commitment
            &&& d.received_signatures == c.received_signatures
            &&& d.tx.version == c.tx.version && d.tx.lock_time == c.tx.lock_time
            &&& d.tx.output == c.tx.output
            &&& d.tx.input.len() == c.tx.input.len()
            &&& forall|k: int|
                0 <= k < c.tx.input.len() ==> if c.owners[k] == c.is_initiator {
                    (#[trigger] d.tx.input[k]).witness == signed.input[k].witness
                        && d.tx.input[k].previous_output == c.tx.input[k].previous_output
                } else {
                    d.tx.input[k] == c.tx.input[k]
                }
        }),
{
    let c = n.channels[id];
    assert(n.channels.contains_key(id));
    assert(c.inv());
    assert(signed.unsigned().input.len() == c.tx.unsigned().input.len());
    lemma_witnesses_of(signed.input, c.owners, c.is_initiator);
    let after = n.after_signed(id, signed);
    assert(after.messages.take(n.messages.len() as int) =~= n.messages);
}

/// A commitment signature is noted once, and a monitor is added for the channel; a second one is
/// refused.
pub proof fn law_commitment_signature_is_noted_once(n: NodeView, from: NodeId, id: ChannelId)
    requires
        n.inv(),
        n.stage_refusal(from, id, Stage::Signing) is None,
    ensures
        ({
            let c = n.channels[id];
            let after = n.after_commitment_signed(from, id);
            let d = after.channels[id];
            if c.received_commitment {
                after == (NodeView {
                    messages: n.messages.push(
                        MessageView::Error { to: from, reason: ErrorReason::UnexpectedMessage },
                    ),
                    ..n
                })
            } else {
                &&& same_elsewhere(n, after, id)
                &&& after.monitors == n.monitors.push(id)
                &&& d.received_commitment
                &&& d.tx == c.tx && d.items == c.items && d.owners == c.owners
                &&& d.holder_signed == c.holder_signed
                &&& d.received_signatures == c.received_signatures
                &&& after == (NodeView { monitors: n.monitors.push(id), ..n }).advance(
                    ChannelView { received_commitment: true, ..c },
                )
            }
        }),
{
    assert(n.channels.contains_key(id));
}

/// The counterparty's signatures are taken exactly if this side holds its commitment signature,
/// has not got them before, has sent its own if it goes first, and there is one witness, not
/// empty, for each of the counterparty's inputs. They then go on those inputs in order, and this
/// side's inputs stay as they are.
pub proof fn law_their_signatures_are_put_in_place(
    n: NodeView,
    from: NodeId,
    id: ChannelId,
    witnesses: Seq<Seq<Seq<u8>>>,
)
    requires
        n.inv(),
        n.stage_refusal(from, id, Stage::Signing) is None,
    ensures
        ({
            let c = n.channels[id];
            let after = n.after_tx_signatures(from, id, witnesses);
            let d = after.channels[id];
            let in_time = c.received_commitment && !c.received_signatures && (
            n.sends_signatures_first(c) ==> c.sent_signatures);
            let fit = witnesses.len() == rank(c.owners, !c.is_initiator, c.owners.len() as int)
                && forall|k: int| 0 <= k < witnesses.len() ==> (#[trigger] witnesses[k]).len() > 0;
            if in_time && fit {
                &&& same_elsewhere(n, after, id)
                &&& after.monitors == n.monitors
                &&& after == n.advance(
                    ChannelView { received_signatures: true, tx: d.tx, ..c },
                )
                &&& d.received_signatures
                &&& d.items == c.items && d.owners == c.owners
                &&& d.tx.version == c.tx.version && d.tx.lock_time == c.tx.lock_time
                &&& d.tx.output == c.tx.output
                &&& d.tx.input.len() == c.tx.input.len()
                &&& forall|k: int|
                    0 <= k < c.tx.input.len() ==> if c.owners[k] == !c.is_initiator {
                        (#[trigger] d.tx.input[k]).witness == witnesses[rank(
                            c.owners,
                            !c.is_initiator,
                            k,
                        )] && d.tx.input[k].previous_output == c.tx.input[k].previous_output
                    } else {
                        d.tx.input[k] == c.tx.input[k]
                    }
            } else {
                after == (NodeView {
                    messages: n.messages.push(
                        MessageView::Error {
                            to: from,
                            reason: if in_time {
                                ErrorReason::InvalidWitnesses
                            } else {
                                ErrorReason::UnexpectedMessage
                            },
                        },
                    ),
                    ..n
                })
            }
        }),
{
    let c = n.channels[id];
    assert(n.channels.contains_key(id));
    assert(c.inv());
    law_witnesses_are_put_in_order(c.tx.input, c.owners, !c.is_initiator, witnesses);
    assert(c.owners.take(c.owners.len() as int) =~= c.owners);
}

/// What is read off a queued message is what it holds.
pub proof fn law_messages_are_read_as_they_are(message: MessageSendEvent)
    ensures
        match message {
            MessageSendEvent::SendOpenChannelV2 { node_id, msg } => message@ matches
                MessageView::OpenChannelV2 { to, msg: read } && to == node_id && read == msg,
            MessageSendEvent::SendAcceptChannelV2 { node_id, msg } => message@ matches
                MessageView::AcceptChannelV2 { to, msg: read } && to == node_id && read == msg,
            MessageSendEvent::SendTxAddInput { node_id, msg } => message@ matches
                MessageView::TxAddInput { to, channel_id, prevtx, prevtx_out } && to == node_id
                && channel_id == msg.channel_id && prevtx == msg.prevtx@ && prevtx_out
                == msg.prevtx_out,
            MessageSendEvent::SendTxAddOutput { node_id, msg } => message@ matches
                MessageView::TxAddOutput { to, channel_id, output } && to == node_id && channel_id
                == msg.channel_id && output == msg.output@,
            MessageSendEvent::SendTxComplete { node_id, msg } => message@ matches
                MessageView::TxComplete { to, channel_id } && to == node_id && channel_id
                == msg.channel_id,
            MessageSendEvent::UpdateHTLCs { node_id, updates } => message@ matches
                MessageView::CommitmentSigned { to, commitment_signed } && to == node_id
                && commitment_signed == updates.commitment_signed@,
            MessageSendEvent::SendTxSignatures { node_id, msg } => message@ matches
                MessageView::TxSignatures { to, channel_id, witnesses } && to == node_id
                && channel_id == msg.channel_id && witnesses == witness_views(msg.witnesses@),
            MessageSendEvent::HandleError { node_id, reason } => message@ matches
                MessageView::Error { to, reason: read } && to == node_id && read == reason,
        },
{
}

/// What is read off an event is what it holds.
pub proof fn law_events_are_read_as_they_are(event: Event)
    ensures
        match event {
            Event::OpenChannelRequest {
                temporary_channel_id,
                counterparty_node_id,
                funding_satoshis,
                is_announced,
                params,
            } => {
                &&& event@ is OpenChannelRequest
                &&& event@->temporary_channel_id == temporary_channel_id
                &&& event@->OpenChannelRequest_counterparty_node_id == counterparty_node_id
                &&& event@->funding_satoshis == funding_satoshis
                &&& event@->is_announced == is_announced
                &&& event@->params == params
            },
            Event::FundingTransactionReadyForSigning {
                channel_id,
                counterparty_node_id,
                user_channel_id,
                unsigned_transaction,
            } => {
                &&& event@ is FundingTransactionReadyForSigning
                &&& event@->FundingTransactionReadyForSigning_channel_id == channel_id
                &&& event@->FundingTransactionReadyForSigning_counterparty_node_id
                    == counterparty_node_id
                &&& event@->FundingTransactionReadyForSigning_user_channel_id == user_channel_id
                &&& event@->unsigned_transaction == unsigned_transaction@
            },
            Event::ChannelPending { channel_id, counterparty_node_id, user_channel_id } => {
                &&& event@ is ChannelPending
                &&& event@->ChannelPending_channel_id == channel_id
                &&& event@->ChannelPending_counterparty_node_id == counterparty_node_id
                &&& event@->ChannelPending_user_channel_id == user_channel_id
            },
            Event::ChannelClosed { channel_id, counterparty_node_id, user_channel_id } => {
                &&& event@ is ChannelClosed
                &&& event@->ChannelClosed_channel_id == channel_id
                &&& event@->ChannelClosed_counterparty_node_id == counterparty_node_id
                &&& event@->ChannelClosed_user_channel_id == user_channel_id
            },
        },
{
}

/// Delivering a message of a negotiation is handling what it says, on behalf of its sender.
pub proof fn law_delivery_is_handling(n: NodeView, from: NodeId, message: MessageView)
    ensures
        match message {
            MessageView::TxAddInput { to, channel_id, prevtx, prevtx_out } => n.after_message(
                from,
                message,
            ) == n.after_tx_add_input(from, channel_id, prevtx, prevtx_out),
            MessageView::TxAddOutput { to, channel_id, output } => n.after_message(from, message)
                == n.after_tx_add_output(from, channel_id, output),
            MessageView::TxComplete { to, channel_id } => n.after_message(from, message)
                == n.after_tx_complete(from, channel_id),
            _ => n.after_message(from, message) == n,
        },
{
    reveal(NodeView::after_message);
}

/// What is read off a list of witnesses is what it holds.
pub proof fn law_witnesses_are_read_as_they_are(witnesses: Seq<Witness>, k: int, j: int)
    requires
        0 <= k < witnesses.len(),
        0 <= j < witnesses[k].len(),
    ensures
        witness_views(witnesses).len() == witnesses.len(),
        witness_views(witnesses)[k].len() == witnesses[k].len(),
        witness_views(witnesses)[k][j] == witnesses[k][j]@,
{
}

/// What is read off a transaction is what it holds.
pub proof fn law_transactions_are_read_as_they_are(tx: Transaction)
    ensures
        tx@.version == tx.version,
        tx@.lock_time == tx.lock_time,
        tx@.input.len() == tx.input.len(),
        tx@.output.len() == tx.output.len(),
        forall|k: int|
            0 <= k < tx.input.len() ==> {
                &&& (#[trigger] tx@.input[k]).previous_output == tx.input[k].previous_output
                &&& tx@.input[k].script_sig == tx.input[k].script_sig@
                &&& tx@.input[k].sequence == tx.input[k].sequence
                &&& tx@.input[k].witness.len() == tx.input[k].witness.len()
            },
        forall|k: int, j: int|
            0 <= k < tx.input.len() && 0 <= j < tx.input[k].witness.len()
                ==> #[trigger] tx@.input[k].witness[j] == tx.input[k].witness[j]@,
        forall|k: int|
            0 <= k < tx.output.len() ==> {
                &&& (#[trigger] tx@.output[k]).value_sats == tx.output[k].value_sats
                &&& tx@.output[k].script_pubkey == tx.output[k].script_pubkey@
            },
{
}

/// What is read off a channel is what it holds.
pub proof fn law_channels_are_read_as_they_are(c: Channel)
    ensures
        c@.channel_id == c.channel_id,
        c@.counterparty == c.counterparty,
        c@.user_channel_id == c.user_channel_id,
        c@.is_initiator == c.is_initiator,
        c@.config == c.config,
        c@.zero_conf == c.zero_conf,
        c@.confirmation_target == c.confirmation_target,
        c@.our_funding_sats == c.our_funding_sats,
        c@.their_funding_sats == c.their_funding_sats,
        c@.stage == c.stage,
        c@.sent_complete == c.sent_complete,
        c@.tx == c.tx@,
        c@.owners == c.owners@,
        c@.holder_signed == c.holder_signed,
        c@.received_commitment == c.received_commitment,
        c@.sent_signatures == c.sent_signatures,
        c@.received_signatures == c.received_signatures,
        c@.to_send.len() == c.to_send.len(),
        c@.items.len() == c.items.len(),
        forall|k: int|
            0 <= k < c.to_send.len() ==> #[trigger] c@.to_send[k] == (match c.to_send[k] {
                Contribution::Input(input) => ContributionView::Input(input@),
                Contribution::Output(output) => ContributionView::Output(output@),
            }),
        forall|k: int|
            0 <= k < c.items.len() ==> {
                &&& (#[trigger] c@.items[k]).by_initiator == c.items[k].by_initiator
                &&& c@.items[k].item == (match c.items[k].item {
                    TxItem::Input { outpoint, value_sats } => TxItemView::Input {
                        outpoint,
                        value_sats,
                    },
                    TxItem::Output { output } => TxItemView::Output { output: output@ },
                })
            },
{
}

} // verus!
