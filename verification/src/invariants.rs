//! Every call on a node keeps the invariant.

use vstd::prelude::*;
use crate::channel::{lemma_rest_of_contributions, ChannelView, ConfirmationTarget, Stage};
use crate::config::UserConfig;
use crate::funding::{all_valid, total_sats, FundingTxInputView};
use crate::ids::{ChannelId, NodeId};
use crate::items::{funding_tx, input_sats, item_of, items_by, output_sats, owners_of};
use crate::items::{lemma_funding_tx_is_unsigned, lemma_inputs_of, lemma_sats_of_concat};
use crate::items::{ContributionView, NegotiatedView, TxItemView};
use crate::messages::{AcceptChannelV2, OpenChannelV2};
use crate::model::{as_contributions, none_empty, NodeView};
use crate::tx::{TransactionView, TxInView, TxOutView};
use crate::witness::{all_signed, count_owned, with_witnesses, witnesses_of};
use crate::witness::{lemma_rank_in_range, lemma_witnesses_of};

verus! {

/// Adding a channel that satisfies the invariant keeps it.
proof fn lemma_set_channel_inv(n: NodeView, c: ChannelView)
    requires
        n.inv(),
        c.inv(),
    ensures
        n.set_channel(c).inv(),
{
    let after = n.set_channel(c);
    assert forall|id: ChannelId| #[trigger] after.channels.contains_key(id) implies (
    after.channels[id].inv() && after.channels[id].channel_id == id) by {
        if id != c.channel_id {
            assert(n.channels.contains_key(id));
        }
    }
}

/// What a party's inputs are worth does not change when they are turned into items.
proof fn lemma_contributions_worth(inputs: Seq<FundingTxInputView>, by_initiator: bool)
    ensures
        input_sats(items_by(as_contributions(inputs), by_initiator), by_initiator) == total_sats(
            inputs,
        ),
        output_sats(items_by(as_contributions(inputs), by_initiator), by_initiator) == 0,
    decreases inputs.len(),
{
    let all = items_by(as_contributions(inputs), by_initiator);
    if inputs.len() > 0 {
        lemma_contributions_worth(inputs.drop_last(), by_initiator);
        assert(all.drop_last() =~= items_by(as_contributions(inputs.drop_last()), by_initiator));
    }
}

/// The first contribution and the rest are worth what all of them are.
proof fn lemma_first_contribution(s: Seq<ContributionView>, by_initiator: bool)
    requires
        s.len() > 0,
    ensures
        ({
            let first = seq![NegotiatedView { by_initiator, item: item_of(s[0]) }];
            let rest = items_by(s.remove(0), by_initiator);
            let all = items_by(s, by_initiator);
            &&& input_sats(all, by_initiator) == input_sats(first, by_initiator) + input_sats(
                rest,
                by_initiator,
            )
            &&& output_sats(all, by_initiator) == output_sats(first, by_initiator) + output_sats(
                rest,
                by_initiator,
            )
        }),
{
    let first = seq![NegotiatedView { by_initiator, item: item_of(s[0]) }];
    let rest = items_by(s.remove(0), by_initiator);
    assert(items_by(s, by_initiator) =~= first + rest);
    lemma_sats_of_concat(first, rest, by_initiator);
}

/// An item adds to what its party has put in and taken out, and to nothing of the other.
proof fn lemma_push_item(items: Seq<NegotiatedView>, next: NegotiatedView, who: bool)
    ensures
        input_sats(items.push(next), who) == input_sats(items, who) + input_sats(seq![next], who),
        output_sats(items.push(next), who) == output_sats(items, who) + output_sats(
            seq![next],
            who,
        ),
        next.by_initiator != who ==> input_sats(seq![next], who) == 0 && output_sats(
            seq![next],
            who,
        ) == 0,
{
    assert(items.push(next) =~= items + seq![next]);
    lemma_sats_of_concat(items, seq![next], who);
    assert(seq![next].drop_last() =~= Seq::<NegotiatedView>::empty());
    assert(seq![next].last() == next);
    assert(input_sats(Seq::<NegotiatedView>::empty(), who) == 0);
    assert(output_sats(Seq::<NegotiatedView>::empty(), who) == 0);
}

/// Without contributions left there is nothing pledged beyond what is in the transaction.
proof fn lemma_nothing_pledged(s: Seq<ContributionView>, by_initiator: bool)
    requires
        s.len() == 0,
    ensures
        input_sats(items_by(s, by_initiator), by_initiator) == 0,
        output_sats(items_by(s, by_initiator), by_initiator) == 0,
{
}

/// A turn in the negotiation keeps the invariant.
pub proof fn lemma_reply_inv(n: NodeView, c: ChannelView)
    requires
        n.inv(),
        c.inv(),
        c.stage == Stage::Negotiating,
    ensures
        n.reply(c).inv(),
        n.reply(c).channels[c.channel_id].inv(),
{
    if c.to_send.len() > 0 {
        let next = NegotiatedView { by_initiator: c.is_initiator, item: item_of(c.to_send[0]) };
        let after = ChannelView {
            to_send: c.to_send.remove(0),
            items: c.items.push(next),
            sent_complete: false,
            ..c
        };
        lemma_first_contribution(c.to_send, c.is_initiator);
        lemma_push_item(c.items, next, c.is_initiator);
        lemma_rest_of_contributions(c.to_send);
        assert(after.inv());
        lemma_set_channel_inv(n, after);
    } else {
        let after = ChannelView { sent_complete: true, ..c };
        assert(after.inv());
        lemma_set_channel_inv(n, after);
    }
}

/// The end of the negotiation keeps the invariant.
pub proof fn lemma_finish_inv(n: NodeView, c: ChannelView)
    requires
        n.inv(),
        c.inv(),
        c.stage == Stage::Negotiating,
        c.to_send.len() == 0,
    ensures
        n.finish(c).inv(),
{
    let owners = owners_of(c.items);
    let nothing_to_sign = !owners.contains(c.is_initiator);
    let after = ChannelView {
        stage: Stage::Signing,
        tx: funding_tx(c.items),
        owners,
        holder_signed: nothing_to_sign,
        ..c
    };
    lemma_funding_tx_is_unsigned(c.items);
    lemma_inputs_of(c.items);
    if nothing_to_sign {
        assert(forall|k: int| 0 <= k < owners.len() ==> #[trigger] owners[k] != c.is_initiator);
    }
    assert(after.inv());
    lemma_set_channel_inv(n, after);
}

/// What follows a change of a channel under signature keeps the invariant.
pub proof fn lemma_advance_inv(n: NodeView, c: ChannelView)
    requires
        n.inv(),
        c.inner_inv(),
        c.stage == Stage::Signing,
    ensures
        n.advance(c).inv(),
{
    let sends = n.can_send_signatures(c);
    let after = ChannelView { sent_signatures: c.sent_signatures || sends, ..c };
    if after.sent_signatures && after.received_signatures {
        let done = ChannelView { stage: Stage::Broadcast, ..after };
        assert(done.inv());
        lemma_set_channel_inv(n, done);
    } else {
        assert(after.inv());
        lemma_set_channel_inv(n, after);
    }
    let set = n.advance(c);
    assert forall|id: ChannelId| #[trigger] set.channels.contains_key(id) implies (
    set.channels[id].inv() && set.channels[id].channel_id == id) by {
        if id != c.channel_id {
            assert(n.channels.contains_key(id));
        }
    }
}

/// Proposing a channel keeps the invariant.
pub proof fn lemma_create_inv(
    n: NodeView,
    counterparty: NodeId,
    funding_sats: u64,
    inputs: Seq<FundingTxInputView>,
    user_channel_id: u128,
    override_config: Option<UserConfig>,
    target: ConfirmationTarget,
    id: ChannelId,
)
    requires
        n.inv(),
        all_valid(inputs),
        n.create_refusal(funding_sats, inputs, id) is None,
    ensures
        n.after_create(
            counterparty,
            funding_sats,
            inputs,
            user_channel_id,
            override_config,
            target,
            id,
        ).inv(),
{
    let after = n.after_create(
        counterparty,
        funding_sats,
        inputs,
        user_channel_id,
        override_config,
        target,
        id,
    );
    lemma_contributions_worth(inputs, true);
    assert(after.channels[id].inv());
    lemma_set_channel_inv(n, after.channels[id]);
}

/// A proposal keeps the invariant.
pub proof fn lemma_open_inv(n: NodeView, from: NodeId, msg: OpenChannelV2)
    requires
        n.inv(),
    ensures
        n.after_open_channel_v2(from, msg).inv(),
{
    if n.open_refusal(msg) is None {
        let c = n.after_open_channel_v2(from, msg).channels[msg.common_fields.temporary_channel_id];
        lemma_nothing_pledged(c.to_send, false);
        assert(c.inv());
        lemma_set_channel_inv(n, c);
    }
}

/// Accepting a request keeps the invariant.
pub proof fn lemma_accept_inv(
    n: NodeView,
    id: ChannelId,
    counterparty: NodeId,
    user_channel_id: u128,
    contribution_sats: u64,
    inputs: Seq<FundingTxInputView>,
    zero_conf: bool,
    override_config: Option<UserConfig>,
)
    requires
        n.inv(),
        n.has_request(id, counterparty),
        all_valid(inputs),
        total_sats(inputs) >= contribution_sats,
    ensures
        n.after_accept(
            id,
            user_channel_id,
            contribution_sats,
            inputs,
            zero_conf,
            override_config,
        ).inv(),
{
    let after = n.after_accept(
        id,
        user_channel_id,
        contribution_sats,
        inputs,
        zero_conf,
        override_config,
    );
    let c = after.channels[id];
    assert(n.channels.contains_key(id));
    lemma_contributions_worth(inputs, false);
    assert(c.items.len() == 0);
    assert(c.inv());
    lemma_set_channel_inv(n, c);
}

/// The acceptor's answer keeps the invariant.
pub proof fn lemma_accept_channel_inv(
    n: NodeView,
    from: NodeId,
    msg: AcceptChannelV2,
    script: Seq<u8>,
)
    requires
        n.inv(),
    ensures
        n.after_accept_channel_v2(from, msg, script).inv(),
{
    let id = msg.temporary_channel_id;
    let c = n.channels[id];
    if n.stage_refusal(from, id, Stage::OpenSent) is None && c.our_funding_sats
        + msg.funding_satoshis <= u64::MAX {
        assert(n.channels.contains_key(id));
        let output = TxOutView {
            value_sats: (c.our_funding_sats + msg.funding_satoshis) as u64,
            script_pubkey: script,
        };
        let start = ChannelView {
            their_funding_sats: msg.funding_satoshis,
            stage: Stage::Negotiating,
            to_send: c.to_send.push(ContributionView::Output(output)),
            ..c
        };
        let next = NegotiatedView { by_initiator: true, item: TxItemView::Output { output } };
        assert(items_by(start.to_send, true) =~= items_by(c.to_send, true).push(next));
        lemma_push_item(items_by(c.to_send, true), next, true);
        assert(seq![next].drop_last() =~= Seq::<NegotiatedView>::empty());
        assert(seq![next].last() == next);
        assert(input_sats(Seq::<NegotiatedView>::empty(), true) == 0);
        assert(output_sats(Seq::<NegotiatedView>::empty(), true) == 0);
        assert(start.inv());
        lemma_reply_inv(n, start);
    }
}

/// An item of the counterparty keeps the invariant.
pub proof fn lemma_item_inv(n: NodeView, from: NodeId, id: ChannelId, item: TxItemView)
    requires
        n.inv(),
        n.stage_refusal(from, id, Stage::Negotiating) is None,
    ensures
        n.after_item(id, item).inv(),
{
    let c = n.channels[id];
    assert(n.channels.contains_key(id));
    let next = NegotiatedView { by_initiator: !c.is_initiator, item };
    let start = ChannelView { items: c.items.push(next), ..c };
    lemma_push_item(c.items, next, c.is_initiator);
    assert(start.inv());
    lemma_reply_inv(n, start);
}

/// A completion keeps the invariant.
pub proof fn lemma_tx_complete_inv(n: NodeView, from: NodeId, id: ChannelId)
    requires
        n.inv(),
        n.stage_refusal(from, id, Stage::Negotiating) is None,
    ensures
        n.after_tx_complete(from, id).inv(),
{
    let c = n.channels[id];
    assert(n.channels.contains_key(id));
    if c.sent_complete {
        lemma_finish_inv(n, c);
    } else {
        lemma_reply_inv(n, c);
        if c.to_send.len() == 0 {
            let replied = n.reply(c);
            lemma_finish_inv(replied, replied.channels[id]);
        }
    }
}

/// Witnesses change nothing of a transaction but its witnesses, and sign the inputs that they
/// are put on.
pub proof fn lemma_with_witnesses(
    tx: TransactionView,
    owners: Seq<bool>,
    who: bool,
    witnesses: Seq<Seq<Seq<u8>>>,
)
    requires
        owners.len() == tx.input.len(),
        witnesses.len() == count_owned(owners, who),
    ensures
        ({
            let input = with_witnesses(tx.input, owners, who, witnesses);
            &&& (TransactionView { input, ..tx }).unsigned() == tx.unsigned()
            &&& none_empty(witnesses) ==> all_signed(input, owners, who)
            &&& all_signed(tx.input, owners, !who) ==> all_signed(input, owners, !who)
        }),
{
    let input = with_witnesses(tx.input, owners, who, witnesses);
    let after = TransactionView { input, ..tx };
    assert(after.unsigned().input =~= tx.unsigned().input);
    if none_empty(witnesses) {
        assert forall|k: int| 0 <= k < input.len() && owners[k] == who implies (
        #[trigger] input[k]).witness.len() > 0 by {
            lemma_rank_in_range(owners, who, k);
        }
    }
    if all_signed(tx.input, owners, !who) {
        assert forall|k: int| 0 <= k < input.len() && owners[k] == !who implies (
        #[trigger] input[k]).witness.len() > 0 by {
            assert(input[k] == tx.input[k]);
        }
    }
}

/// A party that has signed every input of its own has no empty witness among them.
pub proof fn lemma_signed_witnesses(inputs: Seq<TxInView>, owners: Seq<bool>, who: bool)
    requires
        inputs.len() == owners.len(),
        all_signed(inputs, owners, who),
    ensures
        none_empty(witnesses_of(inputs, owners, who)),
    decreases inputs.len(),
{
    if inputs.len() > 0 {
        let i = inputs.drop_last();
        let o = owners.drop_last();
        assert forall|k: int| 0 <= k < i.len() && o[k] == who implies (#[trigger] i[k]).witness.len()
            > 0 by {
            assert(inputs[k] == i[k]);
        }
        lemma_signed_witnesses(i, o, who);
        let w = witnesses_of(inputs, owners, who);
        let rest = witnesses_of(i, o, who);
        assert forall|k: int| 0 <= k < w.len() implies (#[trigger] w[k]).len() > 0 by {
            if k < rest.len() {
                assert(w[k] == rest[k]);
            } else {
                assert(inputs[inputs.len() - 1].witness.len() > 0);
            }
        }
    }
}

/// The user's signatures keep the invariant.
pub proof fn lemma_signed_inv(
    n: NodeView,
    counterparty: NodeId,
    id: ChannelId,
    signed: TransactionView,
)
    requires
        n.inv(),
        n.stage_refusal(counterparty, id, Stage::Signing) is None,
        n.signing_refusal(id, signed) is None,
    ensures
        n.after_signed(id, signed).inv(),
        signed.input.len() == n.channels[id].owners.len(),
{
    let c = n.channels[id];
    assert(n.channels.contains_key(id));
    assert(signed.unsigned().input.len() == c.tx.unsigned().input.len());
    let w = witnesses_of(signed.input, c.owners, c.is_initiator);
    lemma_witnesses_of(signed.input, c.owners, c.is_initiator);
    lemma_signed_witnesses(signed.input, c.owners, c.is_initiator);
    lemma_with_witnesses(c.tx, c.owners, c.is_initiator, w);
    let sent = n.send(crate::model::commitment_message(c.counterparty, id));
    assert(sent.inv()) by {
        assert forall|other: ChannelId| #[trigger] sent.channels.contains_key(other) implies (
        sent.channels[other].inv() && sent.channels[other].channel_id == other) by {
            assert(n.channels.contains_key(other));
        }
    }
    let after = ChannelView {
        holder_signed: true,
        tx: TransactionView {
            input: with_witnesses(c.tx.input, c.owners, c.is_initiator, w),
            ..c.tx
        },
        ..c
    };
    assert(after.inner_inv());
    lemma_advance_inv(sent, after);
}

/// A commitment signature keeps the invariant.
pub proof fn lemma_commitment_signed_inv(n: NodeView, from: NodeId, id: ChannelId)
    requires
        n.inv(),
    ensures
        n.after_commitment_signed(from, id).inv(),
{
    if n.stage_refusal(from, id, Stage::Signing) is None && !n.channels[id].received_commitment {
        assert(n.channels.contains_key(id));
        let with_monitor = NodeView { monitors: n.monitors.push(id), ..n };
        assert(with_monitor.inv()) by {
            assert forall|other: ChannelId| #[trigger]
                with_monitor.channels.contains_key(other) implies (
            with_monitor.channels[other].inv() && with_monitor.channels[other].channel_id == other)
                by {
                assert(n.channels.contains_key(other));
            }
        }
        let after = ChannelView { received_commitment: true, ..n.channels[id] };
        assert(after.inner_inv());
        lemma_advance_inv(with_monitor, after);
    }
}

/// The counterparty's signatures keep the invariant.
pub proof fn lemma_tx_signatures_inv(
    n: NodeView,
    from: NodeId,
    id: ChannelId,
    witnesses: Seq<Seq<Seq<u8>>>,
)
    requires
        n.inv(),
    ensures
        n.after_tx_signatures(from, id, witnesses).inv(),
{
    if n.signatures_refusal(from, id, witnesses) is None {
        assert(n.channels.contains_key(id));
        let c = n.channels[id];
        lemma_with_witnesses(c.tx, c.owners, !c.is_initiator, witnesses);
        let after = ChannelView {
            received_signatures: true,
            tx: TransactionView {
                input: with_witnesses(c.tx.input, c.owners, !c.is_initiator, witnesses),
                ..c.tx
            },
            ..c
        };
        assert(!!c.is_initiator == c.is_initiator);
        assert(after.inner_inv());
        lemma_advance_inv(n, after);
    }
}

} // verus!
