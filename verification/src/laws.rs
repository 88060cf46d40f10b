//! Laws of dual-funded channel establishment, over the states that the calls lead to.

use vstd::prelude::*;
use crate::bitcoin_calls::txid_of;
use crate::channel::{closed, kept, lists_lost, ChannelView, ClosedChannel};
use crate::channel::{ConfirmationTarget, Stage, MIN_CHANNEL_SATS};
use crate::config::UserConfig;
use crate::funding::{total_sats, FundingTxInputView};
use crate::ids::{lex_before, ChannelId, NodeId};
use crate::invariants::{lemma_commitment_signed_inv, lemma_signed_inv, lemma_signed_witnesses};
use crate::invariants::{lemma_tx_signatures_inv, lemma_with_witnesses};
use crate::items::{distinct_inputs, lemma_distinct_push_output, lemma_distinct_swap};
use crate::items::{funding_tx, input_sats, items_by, output_sats, owners_of, NegotiatedView};
use crate::messages::{AcceptChannelV2, OpenChannelV2};
use crate::messages::{ErrorReason, EventView, InboundChannelFunds, MessageView};
use crate::model::{as_contributions, closed_events, commitment_message, none_empty, NodeView};
use crate::negotiation::{channel_of, final_items, in_turns, negotiated, ready_to_negotiate};
use crate::negotiation::{lemma_final_items_sats, lemma_in_turns_distinct};
use crate::tx::{TransactionView, TxInView};
use crate::wallet::{confirmed_of, lemma_needed_from, lemma_selected_inputs_are_owned};
use crate::wallet::{lemma_selected_inputs_worth, needed_from, sats_of};
use crate::wallet::{LocalUtxoView, WalletView};
use crate::witness::{count_owned, with_witnesses, witnesses_of};
use crate::witness::{lemma_read_back_witnesses, lemma_witnesses_of};
use crate::witness_laws::{law_witnesses_are_put_in_order, rank};

verus! {

/// A node tells its peers that it supports dual-funded channels exactly if it does not refuse
/// their proposals for want of it.
pub proof fn law_node_supports_what_it_advertises(n: NodeView, msg: OpenChannelV2)
    ensures
        n.advertises_dual_funding() <==> n.open_refusal(msg) != Some(
            ErrorReason::DualFundingDisabled,
        ),
{
}

/// A node that has dual funding switched off refuses every proposal with an error: its user is
/// not asked, and no channel comes of it. Nor does it propose one itself.
pub proof fn law_disabled_node_refuses(
    n: NodeView,
    from: NodeId,
    msg: OpenChannelV2,
    funding_sats: u64,
    inputs: Seq<FundingTxInputView>,
    id: ChannelId,
)
    requires
        !n.config.enable_dual_funded_channels,
    ensures
        n.after_open_channel_v2(from, msg).events == n.events,
        n.after_open_channel_v2(from, msg).channels == n.channels,
        n.after_open_channel_v2(from, msg).messages == n.messages.push(
            MessageView::Error { to: from, reason: ErrorReason::DualFundingDisabled },
        ),
        n.create_refusal(funding_sats, inputs, id) == Some(
            "Dual-funded channels are not enabled"@,
        ),
{
}

/// No channel of less than the least value is proposed.
pub proof fn law_small_channels_are_refused(
    n: NodeView,
    funding_sats: u64,
    inputs: Seq<FundingTxInputView>,
    id: ChannelId,
)
    requires
        funding_sats < MIN_CHANNEL_SATS,
    ensures
        n.create_refusal(funding_sats, inputs, id) is Some,
{
}

/// A proposal queues exactly one message. Delivered to a node that has dual funding switched on
/// and no channel of that name, it makes that node ask its user about the same channel, with
/// the same value, announced or not as the proposer has it, on behalf of the proposer.
pub proof fn law_proposal_reaches_the_peer(
    proposer: NodeView,
    peer: NodeView,
    funding_sats: u64,
    inputs: Seq<FundingTxInputView>,
    user_channel_id: u128,
    override_config: Option<UserConfig>,
    target: ConfirmationTarget,
    id: ChannelId,
)
    requires
        peer.config.enable_dual_funded_channels,
        !peer.channels.contains_key(id),
    ensures
        ({
            let after = proposer.after_create(
                peer.id,
                funding_sats,
                inputs,
                user_channel_id,
                override_config,
                target,
                id,
            );
            let message = after.messages.last();
            &&& after.messages == proposer.messages.push(message)
            &&& message matches MessageView::OpenChannelV2 { to, msg } && {
                let asked = peer.after_open_channel_v2(proposer.id, msg);
                &&& to == peer.id
                &&& msg.common_fields.funding_satoshis == funding_sats
                &&& asked.messages == peer.messages
                &&& asked.events.len() == peer.events.len() + 1
                &&& asked.events.last() matches EventView::OpenChannelRequest {
                    temporary_channel_id,
                    counterparty_node_id,
                    funding_satoshis,
                    is_announced,
                    params,
                } && {
                    &&& temporary_channel_id == id
                    &&& counterparty_node_id == proposer.id
                    &&& funding_satoshis == funding_sats
                    &&& is_announced == msg.common_fields.announce_for_forwarding
                    &&& is_announced == (match override_config {
                        Some(config) => config.announce_for_forwarding,
                        None => proposer.config.announce_for_forwarding,
                    })
                    &&& params == InboundChannelFunds::DualFunded
                }
            }
        }),
{
}

/// When the acceptor's answer reaches the proposer, the two are ready to negotiate, and the
/// first message adds an input. No two inputs of theirs may spend the same output.
pub proof fn law_acceptance_starts_the_negotiation(
    proposer: NodeView,
    peer: NodeView,
    id: ChannelId,
    user_channel_id: u128,
    contribution_sats: u64,
    inputs: Seq<FundingTxInputView>,
    zero_conf: bool,
    override_config: Option<UserConfig>,
    script: Seq<u8>,
)
    requires
        proposer.inv(),
        peer.inv(),
        proposer.messages.len() == 0,
        peer.messages.len() == 0,
        proposer.stage_refusal(peer.id, id, Stage::OpenSent) is None,
        peer.has_request(id, proposer.id),
        proposer.channels[id].our_funding_sats + contribution_sats <= u64::MAX,
        distinct_inputs(
            items_by(proposer.channels[id].to_send, true) + items_by(
                as_contributions(inputs),
                false,
            ),
        ),
    ensures
        ({
            let accepted = peer.after_accept(
                id,
                user_channel_id,
                contribution_sats,
                inputs,
                zero_conf,
                override_config,
            );
            let answer = accepted.messages.last();
            &&& accepted.messages.len() == 1
            &&& answer matches MessageView::AcceptChannelV2 { to, msg } && {
                let started = proposer.after_accept_channel_v2(peer.id, msg, script);
                &&& to == proposer.id
                &&& msg.funding_satoshis == contribution_sats
                &&& started.messages.len() == 1
                &&& started.messages[0] is TxAddInput
                &&& started.channels[id].their_funding_sats == contribution_sats
                &&& ready_to_negotiate(
                    started,
                    NodeView { messages: Seq::empty(), ..accepted },
                )
            }
        }),
{
    let accepted = peer.after_accept(
        id,
        user_channel_id,
        contribution_sats,
        inputs,
        zero_conf,
        override_config,
    );
    let msg = AcceptChannelV2 { temporary_channel_id: id, funding_satoshis: contribution_sats };
    let started = proposer.after_accept_channel_v2(peer.id, msg, script);
    let c = proposer.channels[id];
    assert(proposer.channels.contains_key(id) && peer.channels.contains_key(id));
    assert(c.inv() && peer.channels[id].inv());
    assert(c.to_send.len() > 0) by {
        assert(input_sats(c.items, true) == 0);
        if c.to_send.len() == 0 {
            assert(input_sats(items_by(c.to_send, true), true) == 0);
        }
    }
    assert(c.to_send[0] is Input);
    assert(c.items =~= Seq::empty());
    assert(started.channels[id].items.drop_last() =~= Seq::empty());
    assert(peer.channels[id].items =~= Seq::empty());
    let ours = items_by(c.to_send, true);
    let theirs = items_by(as_contributions(inputs), false);
    let first = seq![ours[0]];
    let rest = ours.remove(0);
    let left = items_by(started.channels[id].to_send, true);
    assert(ours + theirs =~= first + rest + theirs);
    lemma_distinct_swap(first, rest, theirs);
    lemma_distinct_push_output(first + theirs + rest, left.last());
    assert((first + theirs + rest).push(left.last()) =~= first + theirs + left);
    lemma_in_turns_distinct(first, theirs, left);
    assert(started.channels[id].items =~= first);
}

/// When a negotiation is over, both sides have put the same into the funding transaction, and
/// hold the same transaction, with the same identifier; the exchange of signatures is about to
/// begin.
pub proof fn law_both_sides_negotiate_the_same_transaction(initiator: NodeView, acceptor: NodeView)
    requires
        initiator.inv(),
        acceptor.inv(),
        ready_to_negotiate(initiator, acceptor),
    ensures
        ({
            let id = channel_of(initiator.messages[0]);
            let items = final_items(initiator, acceptor, id);
            let ours = negotiated(initiator, id, items).channels[id];
            let theirs = negotiated(acceptor, id, items).channels[id];
            &&& ours.stage == Stage::Signing && theirs.stage == Stage::Signing
            &&& ours.items == theirs.items
            &&& ours.tx == theirs.tx
            &&& ours.tx == funding_tx(items)
            &&& ours.owners == theirs.owners
            &&& txid_of(ours.tx.unsigned()) == txid_of(theirs.tx.unsigned())
            &&& !ours.received_commitment && !theirs.received_commitment
            &&& initiator.id != acceptor.id ==> two_sides(
                negotiated(initiator, id, items),
                negotiated(acceptor, id, items),
                id,
            )
        }),
{
    let id = channel_of(initiator.messages[0]);
    assert(initiator.channels[id].inv() && acceptor.channels[id].inv()) by {
        assert(initiator.channels.contains_key(id) && acceptor.channels.contains_key(id));
    }
    assert(initiator.channels.contains_key(id) && acceptor.channels.contains_key(id));
}

/// Taking turns loses and repeats nothing.
proof fn lemma_in_turns_multiset<T>(a: Seq<T>, b: Seq<T>)
    ensures
        in_turns(a, b).to_multiset() == a.to_multiset().add(b.to_multiset()),
    decreases a.len() + b.len(),
{
    broadcast use vstd::seq_lib::group_to_multiset_ensures;

    if a.len() == 0 {
        assert(a =~= Seq::empty());
        assert(b.to_multiset() =~= a.to_multiset().add(b.to_multiset()));
    } else {
        let first = seq![a[0]];
        let rest = a.remove(0);
        lemma_in_turns_multiset(b, rest);
        vstd::seq_lib::lemma_multiset_commutative(first, in_turns(b, rest));
        vstd::seq_lib::lemma_multiset_commutative(first, rest);
        assert(first + rest =~= a);
        assert(in_turns(a, b).to_multiset() =~= a.to_multiset().add(b.to_multiset()));
    }
}

/// A negotiation puts every contribution of both sides into the transaction, each exactly once,
/// and nothing else.
pub proof fn law_every_contribution_is_included(initiator: NodeView, acceptor: NodeView)
    requires
        ready_to_negotiate(initiator, acceptor),
    ensures
        ({
            let id = channel_of(initiator.messages[0]);
            let ours = initiator.channels[id];
            let theirs = acceptor.channels[id];
            final_items(initiator, acceptor, id).to_multiset() == ours.items.to_multiset().add(
                items_by(ours.to_send, true).to_multiset().add(
                    items_by(theirs.to_send, false).to_multiset(),
                ),
            )
        }),
{
    let id = channel_of(initiator.messages[0]);
    let ours = initiator.channels[id];
    let a = items_by(acceptor.channels[id].to_send, false);
    let b = items_by(ours.to_send, true);
    lemma_in_turns_multiset(a, b);
    vstd::seq_lib::lemma_multiset_commutative(ours.items, in_turns(a, b));
    assert(a.to_multiset().add(b.to_multiset()) =~= b.to_multiset().add(a.to_multiset()));
}

/// The negotiated transaction takes out exactly what both sides fund the channel with, and its
/// inputs cover it.
pub proof fn law_inputs_cover_the_funding_output(initiator: NodeView, acceptor: NodeView)
    requires
        initiator.inv(),
        acceptor.inv(),
        ready_to_negotiate(initiator, acceptor),
        ({
            let id = channel_of(initiator.messages[0]);
            initiator.channels[id].their_funding_sats == acceptor.channels[id].our_funding_sats
        }),
    ensures
        ({
            let id = channel_of(initiator.messages[0]);
            let items = final_items(initiator, acceptor, id);
            let c = initiator.channels[id];
            let put_in = input_sats(items, true) + input_sats(items, false);
            let taken_out = output_sats(items, true) + output_sats(items, false);
            &&& taken_out == c.our_funding_sats + c.their_funding_sats
            &&& put_in >= taken_out
        }),
{
    let id = channel_of(initiator.messages[0]);
    assert(initiator.channels.contains_key(id) && acceptor.channels.contains_key(id));
    assert(initiator.channels[id].inv() && acceptor.channels[id].inv());
    lemma_final_items_sats(initiator, acceptor);
}

/// When a negotiation is over, a side that has put in no input sends its commitment signature
/// at once and its user is not asked; a side that has put in an input asks its user to sign the
/// transaction, and sends nothing.
pub proof fn law_only_owners_of_inputs_are_asked_to_sign(
    n: NodeView,
    id: ChannelId,
    items: Seq<NegotiatedView>,
)
    requires
        n.channels[id].channel_id == id,
    ensures
        ({
            let c = n.channels[id];
            let after = negotiated(n, id, items);
            if owners_of(items).contains(c.is_initiator) {
                &&& after.messages == Seq::<MessageView>::empty()
                &&& after.events == n.events.push(
                    EventView::FundingTransactionReadyForSigning {
                        channel_id: id,
                        counterparty_node_id: c.counterparty,
                        user_channel_id: c.user_channel_id,
                        unsigned_transaction: funding_tx(items),
                    },
                )
                &&& !after.channels[id].holder_signed
            } else {
                &&& after.messages == seq![commitment_message(c.counterparty, id)]
                &&& after.events == n.events
                &&& after.channels[id].holder_signed
            }
        }),
{
    let after = negotiated(n, id, items);
    if !owners_of(items).contains(n.channels[id].is_initiator) {
        assert(after.messages =~= seq![commitment_message(n.channels[id].counterparty, id)]);
    }
}

/// A node never reveals its signatures on a funding transaction before it holds the
/// counterparty's signature on its commitment transaction.
pub proof fn law_no_signatures_without_a_commitment(n: NodeView, id: ChannelId)
    requires
        n.inv(),
        n.channels.contains_key(id),
        n.channels[id].sent_signatures,
    ensures
        n.channels[id].received_commitment,
        n.channels[id].holder_signed,
{
}

/// A transaction that a node has broadcast for a channel is the negotiated one, and each of its
/// inputs is signed.
pub proof fn law_broadcast_transactions_are_signed(n: NodeView, id: ChannelId)
    requires
        n.inv(),
        n.channels.contains_key(id),
        n.channels[id].stage == Stage::Broadcast,
    ensures
        n.channels[id].tx.unsigned() == funding_tx(n.channels[id].items),
        forall|k: int|
            0 <= k < n.channels[id].tx.input.len() ==> (
            #[trigger] n.channels[id].tx.input[k]).witness.len() > 0,
{
    let c = n.channels[id];
    assert(c.inv());
    assert forall|k: int| 0 <= k < c.tx.input.len() implies (#[trigger] c.tx.input[k]).witness.len()
        > 0 by {
        assert(c.owners[k] == c.is_initiator || c.owners[k] == !c.is_initiator);
    }
}

/// Of two different keys exactly one comes first.
pub proof fn lemma_one_key_is_first(a: NodeId, b: NodeId)
    requires
        a != b,
    ensures
        lex_before(a.bytes@, b.bytes@) != lex_before(b.bytes@, a.bytes@),
{
    broadcast use vstd::array::group_array_axioms;

    let x = a.bytes@;
    let y = b.bytes@;
    if lex_before(x, y) && lex_before(y, x) {
        let i = choose|i: int|
            0 <= i < x.len() && i < y.len() && x[i] < y[i] && forall|j: int|
                0 <= j < i ==> x[j] == y[j];
        let k = choose|k: int|
            0 <= k < y.len() && k < x.len() && y[k] < x[k] && forall|j: int|
                0 <= j < k ==> y[j] == x[j];
        if i < k {
            assert(y[i] == x[i]);
        } else if k < i {
            assert(x[k] == y[k]);
        }
        assert(false);
    }
    if !lex_before(x, y) && !lex_before(y, x) {
        lemma_no_first_means_same(x, y, 33);
        assert(a.bytes =~= b.bytes);
        assert(false);
    }
}

/// Where neither of two sequences comes first, they agree.
proof fn lemma_no_first_means_same(x: Seq<u8>, y: Seq<u8>, n: int)
    requires
        x.len() == y.len(),
        0 <= n <= x.len(),
        !lex_before(x, y),
        !lex_before(y, x),
    ensures
        forall|j: int| 0 <= j < n ==> x[j] == y[j],
    decreases n,
{
    if n > 0 {
        lemma_no_first_means_same(x, y, n - 1);
        if x[n - 1] < y[n - 1] {
            assert(lex_before(x, y));
        } else if y[n - 1] < x[n - 1] {
            assert(lex_before(y, x));
        }
    }
}

/// The two sides of a negotiated channel: they have put the same into the transaction, and know
/// each other.
pub open spec fn two_sides(a: NodeView, b: NodeView, id: ChannelId) -> bool {
    let ca = a.channels[id];
    let cb = b.channels[id];
    &&& a.id != b.id
    &&& a.channels.contains_key(id) && b.channels.contains_key(id)
    &&& ca.counterparty == b.id && cb.counterparty == a.id
    &&& ca.is_initiator != cb.is_initiator
    &&& ca.items == cb.items
}

/// Of the two sides of a channel, exactly one reveals its signatures first, so that neither
/// waits for the other in vain.
pub proof fn law_exactly_one_side_signs_first(a: NodeView, b: NodeView, id: ChannelId)
    requires
        two_sides(a, b, id),
    ensures
        a.sends_signatures_first(a.channels[id]) != b.sends_signatures_first(b.channels[id]),
{
    lemma_one_key_is_first(a.id, b.id);
}

/// A side that has put in nothing, against one that has put in an amount, reveals its signatures
/// first.
pub proof fn law_zero_contribution_signs_first(n: NodeView, c: ChannelView)
    requires
        input_sats(c.items, c.is_initiator) == 0,
        input_sats(c.items, !c.is_initiator) > 0,
    ensures
        n.sends_signatures_first(c),
{
}

/// A side's own signatures, sent to the other side and answered with that side's, leave both
/// with the same signed inputs.
proof fn lemma_signatures_merge(
    a: Seq<TxInView>,
    b: Seq<TxInView>,
    owners: Seq<bool>,
    who: bool,
)
    requires
        a.len() == owners.len(),
        b.len() == owners.len(),
        forall|k: int| 0 <= k < a.len() ==> (#[trigger] a[k]).unsigned() == b[k].unsigned(),
    ensures
        ({
            let x = with_witnesses(b, owners, who, witnesses_of(a, owners, who));
            let y = with_witnesses(a, owners, !who, witnesses_of(x, owners, !who));
            x == y
        }),
{
    let x = with_witnesses(b, owners, who, witnesses_of(a, owners, who));
    let y = with_witnesses(a, owners, !who, witnesses_of(x, owners, !who));
    lemma_witnesses_of(a, owners, who);
    lemma_witnesses_of(x, owners, !who);
    assert forall|k: int| 0 <= k < x.len() implies x[k] == y[k] by {
        assert(a[k].unsigned() == b[k].unsigned());
        if owners[k] == who {
            assert(x[k].witness == a[k].witness);
            assert(y[k] == a[k]);
        } else {
            assert(owners[k] == !who);
            assert(x[k] == b[k]);
            assert(y[k].witness == x[k].witness);
        }
    }
    assert(x =~= y);
}

/// The node after its user has signed the transaction of channel `id` with `signed`, if there
/// was anything to sign.
pub open spec fn signed_by_user(n: NodeView, id: ChannelId, signed: TransactionView) -> NodeView {
    if n.channels[id].holder_signed {
        n
    } else {
        n.after_signed(id, signed)
    }
}

/// The node after its user has signed, if there was anything to sign, and the commitment
/// signature of `peer` was delivered to it, in one order or the other.
pub open spec fn commitments_exchanged(
    n: NodeView,
    id: ChannelId,
    peer: NodeId,
    signed: TransactionView,
    commitment_first: bool,
) -> NodeView {
    if commitment_first {
        signed_by_user(n.after_commitment_signed(peer, id), id, signed)
    } else {
        signed_by_user(n, id, signed).after_commitment_signed(peer, id)
    }
}

/// It makes no difference whether the user signs before or after the counterparty's commitment
/// signature arrives.
pub proof fn law_signing_and_commitment_commute(
    n: NodeView,
    id: ChannelId,
    peer: NodeId,
    signed: TransactionView,
)
    requires
        n.inv(),
        n.stage_refusal(peer, id, Stage::Signing) is None,
        !n.channels[id].received_commitment,
        !n.channels[id].holder_signed,
        n.signing_refusal(id, signed) is None,
    ensures
        n.after_commitment_signed(peer, id).signing_refusal(id, signed) is None,
        n.after_commitment_signed(peer, id).after_signed(id, signed) == n.after_signed(
            id,
            signed,
        ).after_commitment_signed(peer, id),
{
    assert(n.channels.contains_key(id));
    assert(n.channels[id].inv());
    let x = n.after_commitment_signed(peer, id).after_signed(id, signed);
    let y = n.after_signed(id, signed).after_commitment_signed(peer, id);
    assert(x.channels =~= y.channels);
}

/// A side whose user signs and to which the counterparty's commitment signature is delivered,
/// before it was sent any signatures.
proof fn lemma_commitment_exchanged(
    n: NodeView,
    id: ChannelId,
    peer: NodeId,
    signed: TransactionView,
    commitment_first: bool,
)
    requires
        n.inv(),
        n.stage_refusal(peer, id, Stage::Signing) is None,
        !n.channels[id].received_commitment,
        n.channels[id].holder_signed || n.signing_refusal(id, signed) is None,
    ensures
        ({
            let c = n.channels[id];
            let after = commitments_exchanged(n, id, peer, signed, commitment_first);
            let d = after.channels[id];
            &&& after.inv()
            &&& after.id == n.id
            &&& after.stage_refusal(peer, id, Stage::Signing) is None
            &&& after.monitors == n.monitors.push(id)
            &&& after.broadcast == n.broadcast
            &&& after.events == n.events
            &&& d.items == c.items
            &&& d.owners == c.owners
            &&& d.is_initiator == c.is_initiator
            &&& d.user_channel_id == c.user_channel_id
            &&& d.tx.unsigned() == c.tx.unsigned()
            &&& d.holder_signed && d.received_commitment && !d.received_signatures
            &&& d.sent_signatures == n.sends_signatures_first(c)
            &&& d.sent_signatures ==> after.messages.last() == (MessageView::TxSignatures {
                to: peer,
                channel_id: id,
                witnesses: witnesses_of(d.tx.input, d.owners, d.is_initiator),
            })
            &&& !c.holder_signed ==> after.messages.contains(commitment_message(peer, id))
        }),
{
    let c = n.channels[id];
    assert(n.channels.contains_key(id));
    assert(c.inv());
    if !c.holder_signed {
        law_signing_and_commitment_commute(n, id, peer, signed);
        let after = n.after_signed(id, signed).after_commitment_signed(peer, id);
        assert(after.messages[n.messages.len() as int] == commitment_message(peer, id));
    }
    let one = signed_by_user(n, id, signed);
    if !c.holder_signed {
        lemma_signed_inv(n, peer, id, signed);
        let w = witnesses_of(signed.input, c.owners, c.is_initiator);
        lemma_witnesses_of(signed.input, c.owners, c.is_initiator);
        lemma_with_witnesses(c.tx, c.owners, c.is_initiator, w);
    }
    assert(!one.channels[id].sent_signatures);
    assert(one.channels[id].tx.unsigned() == c.tx.unsigned());
    lemma_commitment_signed_inv(one, peer, id);
    let after = one.after_commitment_signed(peer, id);
    assert(after.channels.contains_key(id));
}

/// Each of two sides signs the transaction of channel `id`, if it has anything to sign, which
/// queues its commitment signature, and is sent the other's commitment signature, before it
/// signs or after, as the last two arguments say for each side; `first` then sends its signatures, and `second` answers
/// with its own. Both have then broadcast the same transaction: the negotiated one. Both users
/// are told, and each side has added one monitor.
pub open spec fn signing_completes(
    first: NodeView,
    second: NodeView,
    id: ChannelId,
    signed_first: TransactionView,
    signed_second: TransactionView,
    first_hears_first: bool,
    second_hears_first: bool,
) -> bool {
    let f = commitments_exchanged(first, id, second.id, signed_first, first_hears_first);
    let s = commitments_exchanged(second, id, first.id, signed_second, second_hears_first);
    &&& !first.channels[id].holder_signed ==> f.messages.contains(
        commitment_message(second.id, id),
    )
    &&& !second.channels[id].holder_signed ==> s.messages.contains(
        commitment_message(first.id, id),
    )
    &&& f.messages.last() matches MessageView::TxSignatures {
        to: to_second,
        channel_id: id_second,
        witnesses: of_first,
    } && {
        let s_done = s.after_tx_signatures(first.id, id, of_first);
        &&& to_second == second.id && id_second == id
        &&& s_done.messages.last() matches MessageView::TxSignatures {
            to: to_first,
            channel_id: id_first,
            witnesses: of_second,
        } && {
            let f_done = f.after_tx_signatures(second.id, id, of_second);
            let tx = f_done.channels[id].tx;
            &&& to_first == first.id && id_first == id
            &&& f_done.channels[id].stage == Stage::Broadcast
            &&& s_done.channels[id].stage == Stage::Broadcast
            &&& f_done.broadcast == first.broadcast.push(tx)
            &&& s_done.broadcast == second.broadcast.push(tx)
            &&& tx.unsigned() == funding_tx(first.channels[id].items)
            &&& f_done.events == first.events.push(pending_event(first, id))
            &&& s_done.events == second.events.push(pending_event(second, id))
            &&& f_done.monitors == first.monitors.push(id)
            &&& s_done.monitors == second.monitors.push(id)
        }
    }
}

/// After a negotiation the exchange of signatures completes, whether the users sign before or
/// after they are sent the other side's commitment signature, and ends with both sides having
/// broadcast the same transaction.
pub proof fn law_signing_ends_in_the_same_broadcast(
    first: NodeView,
    second: NodeView,
    id: ChannelId,
    signed_first: TransactionView,
    signed_second: TransactionView,
    first_hears_first: bool,
    second_hears_first: bool,
)
    requires
        first.inv(),
        second.inv(),
        two_sides(first, second, id),
        first.sends_signatures_first(first.channels[id]),
        first.channels[id].stage == Stage::Signing,
        second.channels[id].stage == Stage::Signing,
        !first.channels[id].received_commitment,
        !second.channels[id].received_commitment,
        first.channels[id].holder_signed || first.signing_refusal(id, signed_first) is None,
        second.channels[id].holder_signed || second.signing_refusal(id, signed_second) is None,
    ensures
        signing_completes(
            first,
            second,
            id,
            signed_first,
            signed_second,
            first_hears_first,
            second_hears_first,
        ),
{
    let cf = first.channels[id];
    let cs = second.channels[id];
    assert(cf.inv() && cs.inv());
    law_exactly_one_side_signs_first(first, second, id);
    lemma_commitment_exchanged(first, id, second.id, signed_first, first_hears_first);
    lemma_commitment_exchanged(second, id, first.id, signed_second, second_hears_first);
    let f = commitments_exchanged(first, id, second.id, signed_first, first_hears_first);
    let s = commitments_exchanged(second, id, first.id, signed_second, second_hears_first);
    let df = f.channels[id];
    let ds = s.channels[id];
    let who = cf.is_initiator;
    assert(f.channels.contains_key(id) && s.channels.contains_key(id));
    assert(df.inv() && ds.inv());
    let of_first = witnesses_of(df.tx.input, df.owners, who);
    lemma_witnesses_of(df.tx.input, df.owners, who);
    lemma_signed_witnesses(df.tx.input, df.owners, who);
    assert(!s.sends_signatures_first(ds));
    assert(s.signatures_refusal(first.id, id, of_first) is None);
    let s_done = s.after_tx_signatures(first.id, id, of_first);
    lemma_tx_signatures_inv(s, first.id, id, of_first);
    let es = s_done.channels[id];
    assert(s_done.channels.contains_key(id));
    assert(es.inv());
    let of_second = witnesses_of(es.tx.input, es.owners, !who);
    lemma_witnesses_of(es.tx.input, es.owners, !who);
    lemma_signed_witnesses(es.tx.input, es.owners, !who);
    assert(f.signatures_refusal(second.id, id, of_second) is None);
    let f_done = f.after_tx_signatures(second.id, id, of_second);
    lemma_tx_signatures_inv(f, second.id, id, of_second);
    let ef = f_done.channels[id];
    assert(f_done.channels.contains_key(id));
    assert(ef.inv());
    assert forall|k: int| 0 <= k < df.tx.input.len() implies (#[trigger] df.tx.input[k]).unsigned()
        == ds.tx.input[k].unsigned() by {
        assert(df.tx.unsigned().input[k] == ds.tx.unsigned().input[k]);
    }
    assert(df.tx.unsigned().input.len() == ds.tx.unsigned().input.len());
    lemma_signatures_merge(df.tx.input, ds.tx.input, df.owners, who);
    assert(ef.tx.input == es.tx.input);
    assert(ef.tx == es.tx) by {
        assert(df.tx.unsigned().version == ds.tx.unsigned().version);
        assert(df.tx.unsigned().lock_time == ds.tx.unsigned().lock_time);
        assert(df.tx.unsigned().output == ds.tx.unsigned().output);
    }
}

/// The event that tells the user of a node that channel `id` has been funded.
pub open spec fn pending_event(n: NodeView, id: ChannelId) -> EventView {
    EventView::ChannelPending {
        channel_id: id,
        counterparty_node_id: n.channels[id].counterparty,
        user_channel_id: n.channels[id].user_channel_id,
    }
}

/// A wallet that signs a transaction signs exactly the inputs that it owns. The counterparty's
/// inputs stay as they are, and so does all that the signatures commit to and the identifier is
/// computed from. The witnesses go on the wallet's inputs in order.
pub proof fn law_wallet_signs_its_own_inputs_only(
    wallet: WalletView,
    tx: TransactionView,
    witnesses: Seq<Seq<Seq<u8>>>,
)
    requires
        witnesses.len() == count_owned(wallet.owned_flags(tx), true),
        none_empty(witnesses),
    ensures
        ({
            let owned = wallet.owned_flags(tx);
            let signed = TransactionView {
                input: with_witnesses(tx.input, owned, true, witnesses),
                ..tx
            };
            &&& signed.unsigned() == tx.unsigned()
            &&& txid_of(signed.unsigned()) == txid_of(tx.unsigned())
            &&& forall|k: int|
                0 <= k < tx.input.len() ==> if wallet.owns(tx.input[k].previous_output) {
                    (#[trigger] signed.input[k]).witness.len() > 0
                } else {
                    signed.input[k] == tx.input[k]
                }
            &&& forall|k: int|
                0 <= k < tx.input.len() && wallet.owns(tx.input[k].previous_output) ==> (
                #[trigger] signed.input[k]).witness == witnesses[rank(owned, true, k)]
        }),
{
    let owned = wallet.owned_flags(tx);
    lemma_with_witnesses(tx, owned, true, witnesses);
    law_witnesses_are_put_in_order(tx.input, owned, true, witnesses);
    let input = with_witnesses(tx.input, owned, true, witnesses);
    assert forall|k: int| 0 <= k < tx.input.len() implies if wallet.owns(
        tx.input[k].previous_output,
    ) {
        (#[trigger] input[k]).witness.len() > 0
    } else {
        input[k] == tx.input[k]
    } by {
        assert(owned[k] == wallet.owns(tx.input[k].previous_output));
    }
}

/// The wallet's signatures on a transaction that waits for them are accepted, if the wallet owns
/// the inputs that this side has put in.
pub proof fn law_wallet_signatures_are_accepted(
    n: NodeView,
    id: ChannelId,
    witnesses: Seq<Seq<Seq<u8>>>,
)
    requires
        n.inv(),
        n.channels.contains_key(id),
        n.channels[id].stage == Stage::Signing,
        !n.channels[id].holder_signed,
        forall|k: int|
            0 <= k < n.channels[id].tx.input.len() && n.channels[id].owners[k]
                == n.channels[id].is_initiator ==> #[trigger] n.wallet.owns(
                n.channels[id].tx.input[k].previous_output,
            ),
        witnesses.len() == count_owned(n.wallet.owned_flags(n.channels[id].tx), true),
        none_empty(witnesses),
    ensures
        ({
            let tx = n.channels[id].tx;
            let signed = TransactionView {
                input: with_witnesses(tx.input, n.wallet.owned_flags(tx), true, witnesses),
                ..tx
            };
            n.signing_refusal(id, signed) is None
        }),
{
    let c = n.channels[id];
    let tx = c.tx;
    let signed = TransactionView {
        input: with_witnesses(tx.input, n.wallet.owned_flags(tx), true, witnesses),
        ..tx
    };
    law_wallet_signs_its_own_inputs_only(n.wallet, tx, witnesses);
    assert forall|k: int| 0 <= k < signed.input.len() && c.owners[k] == c.is_initiator implies (
    #[trigger] signed.input[k]).witness.len() > 0 by {
        assert(n.wallet.owns(tx.input[k].previous_output));
    }
}

/// The inputs that a wallet selects spend outputs of its own, so that it can sign them.
pub proof fn law_wallet_owns_what_it_selects(
    wallet: WalletView,
    funding_sats: u64,
    reserve_sats: u64,
)
    requires
        wallet.inv(),
        wallet.can_select(funding_sats, reserve_sats),
    ensures
        forall|k: int|
            0 <= k < wallet.selected_inputs(funding_sats, reserve_sats).len() ==> wallet.owns(
                (#[trigger] wallet.selected_inputs(funding_sats, reserve_sats)[k]).outpoint,
            ),
{
    lemma_selected_inputs_are_owned(wallet, funding_sats, reserve_sats);
}

/// What a wallet selects is suitable for creating a channel: the inputs are worth exactly what
/// the outputs are that it takes, so they cover the amount, and the channel is refused for no
/// want of them. No two different transactions may stand on record under one identifier.
pub proof fn law_selection_is_suitable_for_creation(
    n: NodeView,
    funding_sats: u64,
    reserve_sats: u64,
    id: ChannelId,
)
    requires
        n.wallet.inv(),
        n.wallet.one_tx_per_txid(),
        n.wallet.can_select(funding_sats, reserve_sats),
    ensures
        ({
            let inputs = n.wallet.selected_inputs(funding_sats, reserve_sats);
            &&& total_sats(inputs) == sats_of(n.wallet.selected(funding_sats, reserve_sats))
            &&& total_sats(inputs) >= funding_sats
            &&& n.create_refusal(funding_sats, inputs, id) is None <==> {
                &&& n.config.enable_dual_funded_channels
                &&& funding_sats >= MIN_CHANNEL_SATS
                &&& !n.channels.contains_key(id)
            }
        }),
{
    lemma_selected_inputs_worth(n.wallet, funding_sats, reserve_sats);
}

/// The witnesses that a node puts on its inputs are the ones that its user has signed with, and
/// so are those that it then sends.
pub proof fn law_signatures_sent_are_the_users(
    n: NodeView,
    id: ChannelId,
    counterparty: NodeId,
    signed: TransactionView,
)
    requires
        n.inv(),
        n.stage_refusal(counterparty, id, Stage::Signing) is None,
        n.signing_refusal(id, signed) is None,
    ensures
        ({
            let c = n.channels[id];
            let after = n.after_signed(id, signed);
            let witnesses = witnesses_of(signed.input, c.owners, c.is_initiator);
            &&& witnesses_of(after.channels[id].tx.input, c.owners, c.is_initiator) == witnesses
            &&& after.channels[id].sent_signatures && !c.sent_signatures ==> after.messages.last()
                == (MessageView::TxSignatures { to: counterparty, channel_id: id, witnesses })
        }),
{
    let c = n.channels[id];
    assert(n.channels.contains_key(id));
    assert(c.inv());
    assert(signed.unsigned().input.len() == c.tx.unsigned().input.len());
    let witnesses = witnesses_of(signed.input, c.owners, c.is_initiator);
    lemma_witnesses_of(signed.input, c.owners, c.is_initiator);
    lemma_read_back_witnesses(c.tx.input, c.owners, c.is_initiator, witnesses);
}

/// Every output among the confirmed ones is confirmed.
proof fn lemma_confirmed_of(utxos: Seq<LocalUtxoView>)
    ensures
        forall|k: int|
            0 <= k < confirmed_of(utxos).len() ==> (#[trigger] confirmed_of(utxos)[k]).confirmed,
    decreases utxos.len(),
{
    if utxos.len() > 0 {
        let rest = confirmed_of(utxos.drop_last());
        lemma_confirmed_of(utxos.drop_last());
        assert forall|k: int| 0 <= k < confirmed_of(utxos).len() implies (
        #[trigger] confirmed_of(utxos)[k]).confirmed by {
            if k < rest.len() {
                assert(confirmed_of(utxos)[k] == rest[k]);
            }
        }
    }
}

/// A selection takes confirmed outputs only, in their order, and no more than it needs: without
/// the last of them it would miss its target.
pub proof fn law_selection_takes_what_it_needs(
    wallet: WalletView,
    funding_sats: u64,
    reserve_sats: u64,
)
    ensures
        ({
            let selected = wallet.selected(funding_sats, reserve_sats);
            let target = wallet.selection_target(funding_sats, reserve_sats);
            &&& selected.is_prefix_of(confirmed_of(wallet.utxos))
            &&& forall|k: int| 0 <= k < selected.len() ==> (#[trigger] selected[k]).confirmed
            &&& selected.len() > 0 ==> sats_of(selected.drop_last()) < target
            &&& sats_of(selected) >= target || selected == confirmed_of(wallet.utxos)
        }),
{
    let confirmed = confirmed_of(wallet.utxos);
    let target = wallet.selection_target(funding_sats, reserve_sats);
    let count = needed_from(confirmed, target, 0) as int;
    let selected = wallet.selected(funding_sats, reserve_sats);
    lemma_needed_from(confirmed, target, 0);
    lemma_confirmed_of(wallet.utxos);
    if selected.len() > 0 {
        assert(selected.drop_last() =~= confirmed.take(count - 1));
    }
    if count == confirmed.len() {
        assert(selected =~= confirmed);
    }
}

/// Since `n`, the user was told that its channel `id` is gone: with whom it was, and what the user
/// called it.
pub open spec fn tells_of_closing(n: NodeView, after: NodeView, id: ChannelId) -> bool {
    exists|k: int|
        n.events.len() <= k < after.events.len() && #[trigger] after.events[k] == (
        EventView::ChannelClosed {
            channel_id: id,
            counterparty_node_id: n.channels[id].counterparty,
            user_channel_id: n.channels[id].user_channel_id,
        })
}

/// When a peer disconnects, or when the node restarts, exactly the channels are gone whose
/// funding transaction was not complete, with that peer or with any: those that were proposed,
/// requested or under negotiation. The user is told of each of them once. Nothing was broadcast for
/// them, and the wallet is as it was.
pub proof fn law_unfunded_channels_do_not_survive(
    n: NodeView,
    peer: Option<NodeId>,
    after: NodeView,
)
    requires
        n.inv(),
        n.loses_unfunded(peer, after),
    ensures
        after.wallet == n.wallet,
        after.broadcast == n.broadcast,
        after.monitors == n.monitors,
        after.messages == n.messages,
        after.id == n.id,
        after.config == n.config,
        after.inv(),
        forall|id: ChannelId|
            n.channels.contains_key(id) && (peer is None || peer == Some(
                n.channels[id].counterparty,
            )) ==> (#[trigger] after.channels.contains_key(id) <==> n.channels[id].stage
                == Stage::Signing || n.channels[id].stage == Stage::Broadcast),
        forall|id: ChannelId|
            n.channels.contains_key(id) && !(peer is None || peer == Some(
                n.channels[id].counterparty,
            )) ==> #[trigger] after.channels.contains_key(id),
        forall|id: ChannelId| #[trigger]
            after.channels.contains_key(id) && (peer is None || peer == Some(
                after.channels[id].counterparty,
            )) ==> after.channels[id].stage == Stage::Signing || after.channels[id].stage
                == Stage::Broadcast,
        n.events.is_prefix_of(after.events),
        forall|id: ChannelId|
            n.channels.contains_key(id) && !#[trigger] after.channels.contains_key(id)
                ==> tells_of_closing(n, after, id),
        forall|k: int|
            n.events.len() <= k < after.events.len() ==> {
                &&& (#[trigger] after.events[k]) is ChannelClosed
                &&& n.channels.contains_key(after.events[k]->ChannelClosed_channel_id)
                &&& !after.channels.contains_key(after.events[k]->ChannelClosed_channel_id)
            },
        forall|i: int, j: int|
            n.events.len() <= i < j < after.events.len() ==> #[trigger] after.events[i]
                != #[trigger] after.events[j],
        forall|id: ChannelId| #[trigger]
            after.channels.contains_key(id) <==> n.channels.contains_key(id) && !(
            n.channels[id].unfunded() && (peer matches Some(p) ==> n.channels[id].counterparty
                == p)),
        forall|id: ChannelId| #[trigger]
            after.channels.contains_key(id) ==> after.channels[id] == n.channels[id],
        forall|id: ChannelId| #[trigger]
            n.channels.contains_key(id) && !after.channels.contains_key(id)
                ==> n.channels[id].stage != Stage::Broadcast && !n.channels[id].sent_signatures,
{
    let gone = choose|gone: Seq<ClosedChannel>| #[trigger]
        lists_lost(n.channels, peer, gone) && after == (NodeView {
            channels: kept(n.channels, peer),
            events: n.events + closed_events(gone),
            ..n
        });
    let m = n.events.len() as int;
    assert(forall|k: int|
        m <= k < after.events.len() ==> #[trigger] after.events[k] == closed_events(gone)[k - m]);
    assert forall|id: ChannelId|
        n.channels.contains_key(id) && !#[trigger] after.channels.contains_key(
            id,
        ) implies tells_of_closing(n, after, id) by {
        let j = choose|j: int| 0 <= j < gone.len() && gone[j] == closed(n.channels[id]);
        assert(after.events[m + j] == closed_events(gone)[j]);
        assert(n.channels[id].channel_id == id);
    }
    assert forall|k: int| n.events.len() <= k < after.events.len() implies {
        &&& (#[trigger] after.events[k]) is ChannelClosed
        &&& n.channels.contains_key(after.events[k]->ChannelClosed_channel_id)
        &&& !after.channels.contains_key(after.events[k]->ChannelClosed_channel_id)
    } by {
        assert(gone[k - m].channel_id == after.events[k]->ChannelClosed_channel_id);
    }
    assert forall|i: int, j: int|
        n.events.len() <= i < j < after.events.len() implies #[trigger] after.events[i]
        != #[trigger] after.events[j] by {
        assert(gone[i - m] != gone[j - m]);
    }
    assert forall|id: ChannelId| #[trigger]
        n.channels.contains_key(id) && !after.channels.contains_key(id) implies n.channels[id].stage
        != Stage::Broadcast && !n.channels[id].sent_signatures by {
        assert(n.channels[id].inv());
    }
    assert forall|id: ChannelId| #[trigger] after.channels.contains_key(id) implies (
    after.channels[id].inv() && after.channels[id].channel_id == id) by {
        assert(n.channels.contains_key(id));
    }
}

} // verus!
