//! The negotiation of a funding transaction between two nodes, turn by turn.

use vstd::prelude::*;
use crate::bitcoin_calls::{is_witness_script, txid_of};
use crate::channel::{contributions_valid, inputs_only, lemma_rest_of_contributions};
use crate::channel::{ChannelView, Stage};
use crate::ids::{ChannelId, NodeId};
use crate::invariants::lemma_finish_inv;
use crate::items::{distinct_inputs, lemma_distinct_swap, outpoint_of};
use crate::items::{input_sats, item_of, items_by, lemma_sats_of_concat, output_sats, owners_of};
use crate::items::{ContributionView, NegotiatedView, TxItemView};
use crate::messages::{MessageSendEvent, MessageView};
use crate::model::{add_message, received_input, NodeView};
use crate::node::Node;
use crate::run::{comes_to_an_end, completes_at, ends_after, fails_at, goes_on_for, run, speaks_at};
use crate::run::{lemma_one_outcome, lemma_turn_begins, lemma_turn_decreases, lemma_turn_taken};
use crate::run::turns_bound;
use crate::views::group_view_all;

verus! {

broadcast use group_view_all;

/// One of the two nodes of a negotiation.
#[derive(Clone, Copy, Debug, PartialEq, Eq, Structural)]
pub enum Side {
    Initiator,
    Acceptor,
}

/// Why a turn cannot be taken.
#[derive(Clone, Copy, Debug, PartialEq, Eq, Structural)]
pub enum TurnError {
    /// The side whose turn it is has not queued exactly one message.
    NotOneMessage,
    /// The message does not belong to the negotiation.
    UnexpectedMessage,
}

/// How far a negotiation has come: whose turn it is, and whose last message was a completion.
#[derive(Clone, Copy, Debug, PartialEq, Eq, Structural)]
pub struct Negotiation {
    pub turn: Side,
    pub initiator_sent_tx_complete: bool,
    pub acceptor_sent_tx_complete: bool,
}

/// `message` belongs to a negotiation.
pub open spec fn is_negotiation_message(message: MessageView) -> bool {
    message is TxAddInput || message is TxAddOutput || message is TxComplete
}

impl Negotiation {
    /// The last message of the side that waits was a completion.
    pub open spec fn other_is_complete(self) -> bool {
        match self.turn {
            Side::Initiator => self.acceptor_sent_tx_complete,
            Side::Acceptor => self.initiator_sent_tx_complete,
        }
    }

    /// The negotiation after the side whose turn it is has sent a message, which was a
    /// completion or not.
    pub open spec fn after(self, complete: bool) -> Negotiation {
        match self.turn {
            Side::Initiator => Negotiation {
                turn: Side::Acceptor,
                initiator_sent_tx_complete: complete,
                ..self
            },
            Side::Acceptor => Negotiation {
                turn: Side::Initiator,
                acceptor_sent_tx_complete: complete,
                ..self
            },
        }
    }

    /// A negotiation in which the initiator is about to speak, and nobody has spoken yet.
    pub fn new() -> (r: Negotiation)
        ensures
            r == (Negotiation {
                turn: Side::Initiator,
                initiator_sent_tx_complete: false,
                acceptor_sent_tx_complete: false,
            }),
    {
        Negotiation {
            turn: Side::Initiator,
            initiator_sent_tx_complete: false,
            acceptor_sent_tx_complete: false,
        }
    }

    /// Takes a turn with the messages that the side whose turn it is has queued. Says whether
    /// the negotiation is over: both sides have completed it, one directly after the other.
    pub fn take_turn(&mut self, messages: &Vec<MessageSendEvent>) -> (r: Result<bool, TurnError>)
        ensures
            match r {
                Ok(over) => {
                    &&& messages.len() == 1
                    &&& is_negotiation_message(messages[0]@)
                    &&& *final(self) == old(self).after(messages[0]@ is TxComplete)
                    &&& over == (messages[0]@ is TxComplete && old(self).other_is_complete())
                },
                Err(TurnError::NotOneMessage) => messages.len() != 1 && *final(self) == *old(self),
                Err(TurnError::UnexpectedMessage) => {
                    &&& messages.len() == 1
                    &&& !is_negotiation_message(messages[0]@)
                    &&& *final(self) == *old(self)
                },
            },
    {
        if messages.len() != 1 {
            return Err(TurnError::NotOneMessage);
        }
        let complete = match &messages[0] {
            MessageSendEvent::SendTxAddInput { .. } => false,
            MessageSendEvent::SendTxAddOutput { .. } => false,
            MessageSendEvent::SendTxComplete { .. } => true,
            _ => {
                return Err(TurnError::UnexpectedMessage);
            },
        };
        match self.turn {
            Side::Initiator => {
                self.turn = Side::Acceptor;
                self.initiator_sent_tx_complete = complete;
                Ok(complete && self.acceptor_sent_tx_complete)
            },
            Side::Acceptor => {
                self.turn = Side::Initiator;
                self.acceptor_sent_tx_complete = complete;
                Ok(complete && self.initiator_sent_tx_complete)
            },
        }
    }
}

impl NodeView {
    /// The node after it was handed a message of a negotiation.
    #[verifier::opaque]
    pub open spec fn after_message(self, from: NodeId, message: MessageView) -> NodeView {
        match message {
            MessageView::TxAddInput { to, channel_id, prevtx, prevtx_out } => {
                self.after_tx_add_input(from, channel_id, prevtx, prevtx_out)
            },
            MessageView::TxAddOutput { to, channel_id, output } => {
                self.after_tx_add_output(from, channel_id, output)
            },
            MessageView::TxComplete { to, channel_id } => self.after_tx_complete(from, channel_id),
            _ => self,
        }
    }
}

/// Hands a message of a negotiation to `node`.
pub fn deliver(node: &mut Node, from: NodeId, message: &MessageSendEvent)
    requires
        old(node).wf(),
        is_negotiation_message(message@),
    ensures
        final(node).wf(),
        final(node)@ == old(node)@.after_message(from, message@),
{
    proof {
        reveal(NodeView::after_message);
    }
    match message {
        MessageSendEvent::SendTxAddInput { msg, .. } => node.handle_tx_add_input(from, msg),
        MessageSendEvent::SendTxAddOutput { msg, .. } => node.handle_tx_add_output(from, msg),
        MessageSendEvent::SendTxComplete { msg, .. } => node.handle_tx_complete(from, msg),
        _ => {},
    }
}

/// The elements of `a` and `b` in turns, beginning with `a`; when one has run out, the rest of
/// the other.
pub open spec fn in_turns<T>(a: Seq<T>, b: Seq<T>) -> Seq<T>
    decreases a.len() + b.len(),
{
    if a.len() == 0 {
        b
    } else {
        seq![a[0]] + in_turns(b, a.remove(0))
    }
}

/// When the second has nothing, the first gives all of its elements in order.
pub proof fn lemma_in_turns_alone<T>(a: Seq<T>)
    ensures
        in_turns(a, Seq::empty()) == a,
{
    if a.len() == 0 {
        assert(a =~= Seq::empty());
    } else {
        assert(in_turns(Seq::empty(), a.remove(0)) == a.remove(0));
        assert(seq![a[0]] + a.remove(0) =~= a);
    }
}

/// Distinct inputs stay distinct when two parties put them in in turns.
pub proof fn lemma_in_turns_distinct(
    c: Seq<NegotiatedView>,
    a: Seq<NegotiatedView>,
    b: Seq<NegotiatedView>,
)
    requires
        distinct_inputs(c + a + b),
    ensures
        distinct_inputs(c + in_turns(a, b)),
    decreases a.len() + b.len(),
{
    if a.len() == 0 {
        assert(c + a + b =~= c + b);
    } else {
        let first = seq![a[0]];
        let rest = a.remove(0);
        assert(c + a + b =~= (c + first) + rest + b);
        lemma_distinct_swap(c + first, rest, b);
        lemma_in_turns_distinct(c + first, b, rest);
        assert(c + in_turns(a, b) =~= (c + first) + in_turns(b, rest));
    }
}

/// `message` puts `item` into the transaction of channel `id`.
pub open spec fn carries(message: MessageView, id: ChannelId, item: TxItemView) -> bool {
    match message {
        MessageView::TxAddInput { to, channel_id, prevtx, prevtx_out } => {
            &&& channel_id == id
            &&& prevtx_out < prevtx.output.len()
            &&& is_witness_script(prevtx.output[prevtx_out as int].script_pubkey)
            &&& item == received_input(prevtx, prevtx_out, txid_of(prevtx.unsigned()))
        },
        MessageView::TxAddOutput { to, channel_id, output } => {
            &&& channel_id == id
            &&& item == TxItemView::Output { output }
        },
        _ => false,
    }
}

/// The channel that a message of a negotiation is about.
pub open spec fn channel_of(message: MessageView) -> ChannelId {
    match message {
        MessageView::TxAddInput { to, channel_id, prevtx, prevtx_out } => channel_id,
        MessageView::TxAddOutput { to, channel_id, output } => channel_id,
        MessageView::TxComplete { to, channel_id } => channel_id,
        _ => arbitrary(),
    }
}

/// What the two sides have put into the transaction of channel `id` when the negotiation that
/// `initiator` has begun is over: what it has put there already, and then what both sides have
/// left, in turns, the acceptor first.
pub open spec fn final_items(initiator: NodeView, acceptor: NodeView, id: ChannelId) -> Seq<
    NegotiatedView,
> {
    initiator.channels[id].items + in_turns(
        items_by(acceptor.channels[id].to_send, false),
        items_by(initiator.channels[id].to_send, true),
    )
}

/// The node when the negotiation of channel `id` is over and has put `items` into the
/// transaction: all of its messages were delivered, and it has ended the negotiation.
pub open spec fn negotiated(node: NodeView, id: ChannelId, items: Seq<NegotiatedView>) -> NodeView {
    NodeView { messages: Seq::empty(), ..node }.finish(
        ChannelView {
            items,
            to_send: Seq::empty(),
            sent_complete: true,
            ..node.channels[id]
        },
    )
}

/// It is the initiator's turn in a negotiation of the two nodes: `initiator` has queued one
/// message, and nothing else is queued. Either it has put something into the transaction of a
/// channel that they share, and the message says so; or it has nothing to add, the message says
/// that, and the acceptor, which has an input in the transaction or to come, has not said the
/// same just before. No two inputs, in the transaction or to come, spend the same output.
pub open spec fn ready_to_negotiate(initiator: NodeView, acceptor: NodeView) -> bool {
    let message = initiator.messages[0];
    let id = channel_of(message);
    let ours = initiator.channels[id];
    let theirs = acceptor.channels[id];
    &&& initiator.messages.len() == 1
    &&& acceptor.messages.len() == 0
    &&& initiator.stage_refusal(acceptor.id, id, Stage::Negotiating) is None
    &&& acceptor.stage_refusal(initiator.id, id, Stage::Negotiating) is None
    &&& ours.is_initiator && !theirs.is_initiator
    &&& distinct_inputs(final_items(initiator, acceptor, id))
    &&& if ours.sent_complete {
        &&& message == MessageView::TxComplete { to: acceptor.id, channel_id: id }
        &&& ours.items == theirs.items
        &&& !theirs.sent_complete
        &&& theirs.to_send.len() > 0 || owners_of(theirs.items).contains(false)
    } else {
        &&& ours.items.len() > 0
        &&& ours.items.last().by_initiator
        &&& ours.items.drop_last() == theirs.items
        &&& carries(message, id, ours.items.last().item)
    }
}

/// `channel` in the middle of a negotiation that began with `start`.
spec fn in_progress(start: ChannelView, channel: ChannelView) -> bool {
    &&& channel == ChannelView {
        items: channel.items,
        to_send: channel.to_send,
        sent_complete: channel.sent_complete,
        ..start
    }
    &&& contributions_valid(channel.to_send)
    &&& !channel.is_initiator ==> inputs_only(channel.to_send)
}

/// The listener in the middle of a negotiation: nothing is queued, and only its channel has
/// changed since `start`.
spec fn is_listening(start: NodeView, id: ChannelId, now: NodeView) -> bool {
    &&& in_progress(start.channels[id], now.channels[id])
    &&& now == NodeView { messages: Seq::empty(), ..start }.set_channel(now.channels[id])
}

/// It is the turn of the speaker, who began as `s0` and is now `s`; the listener began as `l0`
/// and is now `l`. The negotiation is going to end with `items`.
spec fn is_speaking(
    s0: NodeView,
    l0: NodeView,
    id: ChannelId,
    items: Seq<NegotiatedView>,
    s: NodeView,
    l: NodeView,
) -> bool {
    let message = s.messages[0];
    let cs = s.channels[id];
    let cl = l.channels[id];
    &&& owners_of(items).contains(true)
    &&& distinct_inputs(items)
    &&& s0.channels[id].channel_id == id && l0.channels[id].channel_id == id
    &&& s0.channels[id].counterparty == l0.id && l0.channels[id].counterparty == s0.id
    &&& s0.channels[id].stage == Stage::Negotiating && l0.channels[id].stage == Stage::Negotiating
    &&& s0.channels[id].is_initiator != l0.channels[id].is_initiator
    &&& s0.channels.contains_key(id) && l0.channels.contains_key(id)
    &&& s.messages.len() == 1
    &&& is_listening(l0, id, l)
    &&& if cs.stage == Stage::Negotiating {
        &&& in_progress(s0.channels[id], cs)
        &&& s == NodeView { messages: seq![message], ..s0 }.set_channel(cs)
        &&& items == cs.items + in_turns(
            items_by(cl.to_send, cl.is_initiator),
            items_by(cs.to_send, cs.is_initiator),
        )
        &&& if cs.sent_complete {
            &&& message == MessageView::TxComplete { to: l0.id, channel_id: id }
            &&& cs.to_send.len() == 0
            &&& cs.items == cl.items
            &&& !cl.sent_complete
            &&& owners_of(items).contains(cl.is_initiator)
        } else {
            &&& cs.items.len() > 0
            &&& cs.items.drop_last() == cl.items
            &&& cs.items.last().by_initiator == cs.is_initiator
            &&& carries(message, id, cs.items.last().item)
            &&& owners_of(items).contains(cs.is_initiator)
        }
    } else {
        &&& message == MessageView::TxComplete { to: l0.id, channel_id: id }
        &&& owners_of(items).contains(s0.channels[id].is_initiator)
        &&& s == NodeView { messages: seq![message], ..negotiated(s0, id, items) }
        &&& cl.sent_complete
        &&& cl.to_send.len() == 0
        &&& cl.items == items
    }
}

/// How many messages the negotiation can still take, at most.
spec fn turns_left(id: ChannelId, s: NodeView, l: NodeView) -> nat {
    let cs = s.channels[id];
    let cl = l.channels[id];
    if cs.stage != Stage::Negotiating {
        0
    } else {
        2 * (cs.to_send.len() + cl.to_send.len()) + if cs.sent_complete {
            1nat
        } else {
            2nat
        }
    }
}

/// The owner of an input that is among the items is among the owners.
proof fn lemma_owner_of_item(items: Seq<NegotiatedView>, k: int)
    requires
        0 <= k < items.len(),
        items[k].item is Input,
    ensures
        owners_of(items).contains(items[k].by_initiator),
    decreases items.len(),
{
    let rest = items.drop_last();
    let owners = owners_of(items);
    if k == items.len() - 1 {
        assert(owners[owners.len() - 1] == items[k].by_initiator);
    } else {
        lemma_owner_of_item(rest, k);
        let j = choose|j: int|
            0 <= j < owners_of(rest).len() && owners_of(rest)[j] == rest[k].by_initiator;
        assert(owners[j] == items[k].by_initiator);
    }
}

/// The items of all contributions but the first.
proof fn lemma_items_by_remove(s: Seq<ContributionView>, by_initiator: bool)
    requires
        s.len() > 0,
    ensures
        items_by(s, by_initiator)[0] == (NegotiatedView { by_initiator, item: item_of(s[0]) }),
        items_by(s.remove(0), by_initiator) == items_by(s, by_initiator).remove(0),
{
    assert(items_by(s.remove(0), by_initiator) =~= items_by(s, by_initiator).remove(0));
}

/// Putting a channel in twice is putting it in the second time.
proof fn lemma_set_channel_twice(n: NodeView, a: ChannelView, b: ChannelView)
    requires
        a.channel_id == b.channel_id,
    ensures
        n.set_channel(a).set_channel(b) == n.set_channel(b),
{
    assert(n.set_channel(a).set_channel(b).channels =~= n.set_channel(b).channels);
}

/// The listener answers an item of the speaker.
proof fn lemma_answer_item(
    s0: NodeView,
    l0: NodeView,
    id: ChannelId,
    items: Seq<NegotiatedView>,
    s: NodeView,
    l: NodeView,
)
    requires
        is_speaking(s0, l0, id, items, s, l),
        !(s.messages[0] is TxComplete),
    ensures
        is_speaking(
            l0,
            s0,
            id,
            items,
            l.after_message(s0.id, s.messages[0]),
            NodeView { messages: Seq::empty(), ..s },
        ),
        turns_left(
            id,
            l.after_message(s0.id, s.messages[0]),
            NodeView { messages: Seq::empty(), ..s },
        ) < turns_left(id, s, l),
{
    reveal(NodeView::after_message);
    let message = s.messages[0];
    let cs = s.channels[id];
    let cl = l.channels[id];
    let item = cs.items.last().item;
    let l2 = l.after_message(s0.id, message);
    let s2 = NodeView { messages: Seq::empty(), ..s };
    assert(l.channels.contains_key(id));
    let received = ChannelView {
        items: cl.items.push(NegotiatedView { by_initiator: !cl.is_initiator, item }),
        ..cl
    };
    assert(received.items =~= cs.items);
    if message is TxAddInput {
        let m = cs.items.len() - 1;
        assert(items[m] == cs.items[m]);
        assert forall|k: int| 0 <= k < cl.items.len() implies outpoint_of(
            (#[trigger] cl.items[k]).item,
        ) != outpoint_of(item) by {
            assert(cl.items[k] == cs.items[k] && cs.items[k] == items[k]);
        }
    }
    assert(l2 == l.reply(received));
    let base = NodeView { messages: Seq::empty(), ..l0 };
    assert(is_listening(s0, id, s2)) by {
        assert(s2 == NodeView { messages: Seq::empty(), ..s0 }.set_channel(cs));
    }
    let ours = items_by(cl.to_send, cl.is_initiator);
    let theirs = items_by(cs.to_send, cs.is_initiator);
    if cl.to_send.len() > 0 {
        let next = cl.to_send[0];
        let entry = NegotiatedView { by_initiator: cl.is_initiator, item: item_of(next) };
        let after = ChannelView {
            to_send: cl.to_send.remove(0),
            items: cs.items.push(entry),
            sent_complete: false,
            ..cl
        };
        lemma_items_by_remove(cl.to_send, cl.is_initiator);
        lemma_set_channel_twice(base, cl, after);
        assert(l2.messages =~= seq![add_message(s0.id, id, next)]);
        assert(l2 == NodeView { messages: seq![l2.messages[0]], ..l0 }.set_channel(after));
        lemma_rest_of_contributions(cl.to_send);
        assert(after.items.drop_last() =~= cs.items);
        assert(carries(l2.messages[0], id, entry.item));
        assert(items =~= after.items + in_turns(theirs, ours.remove(0)));
        if !cl.is_initiator {
            assert(next is Input);
            let k = cs.items.len() as int;
            assert(items[k] == entry);
            lemma_owner_of_item(items, k);
        }
        assert(is_speaking(l0, s0, id, items, l2, s2));
    } else {
        let after = ChannelView { items: cs.items, sent_complete: true, ..cl };
        lemma_set_channel_twice(base, cl, after);
        assert(l2.messages =~= seq![MessageView::TxComplete { to: s0.id, channel_id: id }]);
        assert(l2 == NodeView { messages: seq![l2.messages[0]], ..l0 }.set_channel(after));
        assert(ours =~= Seq::empty());
        lemma_in_turns_alone(theirs);
        assert(items == after.items + in_turns(theirs, ours));
        assert(is_speaking(l0, s0, id, items, l2, s2));
    }
}

/// The listener answers a completion of the speaker, or ends the negotiation with it.
proof fn lemma_answer_completion(
    s0: NodeView,
    l0: NodeView,
    id: ChannelId,
    items: Seq<NegotiatedView>,
    s: NodeView,
    l: NodeView,
)
    requires
        is_speaking(s0, l0, id, items, s, l),
        s.messages[0] is TxComplete,
    ensures
        ({
            let l2 = l.after_message(s0.id, s.messages[0]);
            let s2 = NodeView { messages: Seq::empty(), ..s };
            if l.channels[id].sent_complete {
                &&& s2 == negotiated(s0, id, items)
                &&& l2 == negotiated(l0, id, items)
            } else {
                &&& is_speaking(l0, s0, id, items, l2, s2)
                &&& turns_left(id, l2, s2) < turns_left(id, s, l)
            }
        }),
{
    reveal(NodeView::after_message);
    let message = s.messages[0];
    let cs = s.channels[id];
    let cl = l.channels[id];
    let l2 = l.after_message(s0.id, message);
    let s2 = NodeView { messages: Seq::empty(), ..s };
    let base = NodeView { messages: Seq::empty(), ..l0 };
    assert(l.channels.contains_key(id));
    if cl.sent_complete {
        assert(cs.stage != Stage::Negotiating);
        assert(s2.messages =~= negotiated(s0, id, items).messages);
        let before = ChannelView {
            items,
            to_send: Seq::empty(),
            sent_complete: true,
            ..l0.channels[id]
        };
        assert(cl.to_send =~= Seq::empty());
        assert(cl == before);
        lemma_set_channel_twice(base, cl, l2.channels[id]);
        assert(l2 == l.finish(cl));
        assert(l2 == base.finish(before));
    } else {
        assert(cs.stage == Stage::Negotiating);
        assert(cs.sent_complete);
        let ours = items_by(cl.to_send, cl.is_initiator);
        let theirs = items_by(cs.to_send, cs.is_initiator);
        assert(theirs =~= Seq::empty());
        assert(is_listening(s0, id, s2)) by {
            assert(s2 == NodeView { messages: Seq::empty(), ..s0 }.set_channel(cs));
        }
        if cl.to_send.len() > 0 {
            let next = cl.to_send[0];
            let entry = NegotiatedView { by_initiator: cl.is_initiator, item: item_of(next) };
            let after = ChannelView {
                to_send: cl.to_send.remove(0),
                items: cl.items.push(entry),
                sent_complete: false,
                ..cl
            };
            lemma_items_by_remove(cl.to_send, cl.is_initiator);
            lemma_set_channel_twice(base, cl, after);
            assert(l2 == l.reply(cl));
            assert(l2.messages =~= seq![add_message(s0.id, id, next)]);
            assert(l2 == NodeView { messages: seq![l2.messages[0]], ..l0 }.set_channel(after));
            lemma_rest_of_contributions(cl.to_send);
            assert(after.items.drop_last() =~= cs.items);
            assert(carries(l2.messages[0], id, entry.item));
            assert(items =~= after.items + in_turns(theirs, ours.remove(0)));
            assert(is_speaking(l0, s0, id, items, l2, s2));
        } else {
            assert(ours =~= Seq::empty());
            assert(items =~= cs.items);
            let replied = l.reply(cl);
            let after = replied.channels[id];
            let before = ChannelView {
                items,
                to_send: Seq::empty(),
                sent_complete: true,
                ..l0.channels[id]
            };
            assert(cl.to_send =~= Seq::empty());
            assert(after == before);
            assert(l2 == replied.finish(after));
            let goal = negotiated(l0, id, items);
            lemma_set_channel_twice(base, cl, after);
            lemma_set_channel_twice(base, after, goal.channels[id]);
            assert(l2.messages =~= seq![MessageView::TxComplete { to: s0.id, channel_id: id }]);
            assert(l2 == NodeView { messages: seq![l2.messages[0]], ..goal });
            assert(is_speaking(l0, s0, id, items, l2, s2));
        }
    }
}

/// One turn: the message that the speaker has queued is delivered to the listener. Says whether
/// the negotiation is over. A turn that cannot be taken takes the speaker's messages and changes
/// nothing else.
pub fn pass_message(state: &mut Negotiation, speaker: &mut Node, listener: &mut Node) -> (r: Result<
    bool,
    TurnError,
>)
    requires
        old(speaker).wf(),
        old(listener).wf(),
    ensures
        final(speaker).wf(),
        final(listener).wf(),
        final(speaker)@ == (NodeView { messages: Seq::empty(), ..old(speaker)@ }),
        ({
            let messages = old(speaker)@.messages;
            match r {
                Ok(over) => {
                    &&& messages.len() == 1
                    &&& is_negotiation_message(messages[0])
                    &&& *final(state) == old(state).after(messages[0] is TxComplete)
                    &&& over == (messages[0] is TxComplete && old(state).other_is_complete())
                    &&& final(listener)@ == old(listener)@.after_message(
                        old(speaker)@.id,
                        messages[0],
                    )
                },
                Err(e) => {
                    &&& match e {
                        TurnError::NotOneMessage => messages.len() != 1,
                        TurnError::UnexpectedMessage => {
                            messages.len() == 1 && !is_negotiation_message(messages[0])
                        },
                    }
                    &&& *final(state) == *old(state)
                    &&& final(listener)@ == old(listener)@
                },
            }
        }),
{
    let from = speaker.get_our_node_id();
    let messages = speaker.get_and_clear_pending_msg_events();
    assert(messages.len() == old(speaker)@.messages.len());
    if messages.len() == 1 {
        assert(messages[0]@ == old(speaker)@.messages[0]);
    }
    match state.take_turn(&messages) {
        Ok(over) => {
            deliver(listener, from, &messages[0]);
            Ok(over)
        },
        Err(e) => Err(e),
    }
}

/// Drives the interactive negotiation of a funding transaction between `initiator` and
/// `acceptor`: they take turns, the initiator first, and each message is delivered to the other
/// side before that side is polled. Returns when both sides have sent their completion, one
/// directly after the other, or when a side does not hand out exactly one message of the
/// negotiation.
pub fn try_drive_interactive_tx_negotiation(initiator: &mut Node, acceptor: &mut Node) -> (r: Result<
    (),
    TurnError,
>)
    requires
        old(initiator).wf(),
        old(acceptor).wf(),
    ensures
        final(initiator).wf(),
        final(acceptor).wf(),
        match r {
            Ok(_) => exists|n: nat| #[trigger]
                ends_after(old(initiator)@, old(acceptor)@, n) && {
                    let end = run(old(initiator)@, old(acceptor)@, 2 * n);
                    final(initiator)@ == end.initiator && final(acceptor)@ == end.acceptor
                },
            Err(e) => exists|n: nat| #[trigger]
                fails_at(old(initiator)@, old(acceptor)@, n, e) && {
                    let end = run(old(initiator)@, old(acceptor)@, 2 * n + 1);
                    final(initiator)@ == end.initiator && final(acceptor)@ == end.acceptor
                },
        },
{
    let ghost i0 = initiator@;
    let ghost a0 = acceptor@;
    let ghost mut n: nat = 0;
    let mut state = Negotiation::new();
    loop
        invariant
            initiator.wf(),
            acceptor.wf(),
            i0 == old(initiator)@,
            a0 == old(acceptor)@,
            n % 2 == 0,
            goes_on_for(i0, a0, n),
            run(i0, a0, 2 * n).initiator == initiator@,
            run(i0, a0, 2 * n).acceptor == acceptor@,
            state.turn == Side::Initiator,
            state.acceptor_sent_tx_complete == (n > 0 && completes_at(i0, a0, (n - 1) as nat)),
        decreases
            acceptor@.messages.len(),
            turns_bound(initiator@, acceptor@, state.acceptor_sent_tx_complete),
    {
        let ghost i1 = initiator@;
        let ghost a1 = acceptor@;
        proof {
            lemma_turn_begins(i0, a0, n);
            lemma_turn_taken(i0, a0, n);
            if speaks_at(i0, a0, n) && a1.messages.len() == 0 && !(completes_at(i0, a0, n)
                && state.acceptor_sent_tx_complete) {
                lemma_turn_decreases(i1, a1, state.acceptor_sent_tx_complete);
            }
        }
        match pass_message(&mut state, initiator, acceptor) {
            Ok(over) => {
                proof {
                    n = n + 1;
                }
                if over {
                    assert(ends_after(i0, a0, n));
                    return Ok(());
                }
            },
            Err(e) => {
                assert(fails_at(i0, a0, n, e));
                return Err(e);
            },
        }
        let ghost i2 = initiator@;
        let ghost a2 = acceptor@;
        proof {
            assert(2 * n == 2 * (n - 1) + 2);
            lemma_turn_begins(i0, a0, n);
            lemma_turn_taken(i0, a0, n);
            if speaks_at(i0, a0, n) && !(completes_at(i0, a0, n)
                && state.initiator_sent_tx_complete) {
                lemma_turn_decreases(a2, i2, state.initiator_sent_tx_complete);
            }
        }
        match pass_message(&mut state, acceptor, initiator) {
            Ok(over) => {
                proof {
                    n = n + 1;
                }
                if over {
                    assert(ends_after(i0, a0, n));
                    return Ok(());
                }
            },
            Err(e) => {
                assert(fails_at(i0, a0, n, e));
                return Err(e);
            },
        }
        assert(2 * n == 2 * (n - 1) + 2);
    }
}

/// Nodes that are in the middle of a negotiation come to its end.
proof fn lemma_run_goes_on(
    i0: NodeView,
    a0: NodeView,
    id: ChannelId,
    items: Seq<NegotiatedView>,
    n: nat,
)
    requires
        goes_on_for(i0, a0, n),
        ({
            let r = run(i0, a0, 2 * n);
            let sent = r.listener().channels[id].sent_complete;
            &&& match r.turn {
                Side::Initiator => is_speaking(i0, a0, id, items, r.initiator, r.acceptor),
                Side::Acceptor => is_speaking(a0, i0, id, items, r.acceptor, r.initiator),
            }
            &&& if n == 0 {
                r.speaker().messages[0] is TxComplete ==> !sent
            } else {
                sent == completes_at(i0, a0, (n - 1) as nat)
            }
        }),
    ensures
        exists|m: nat| #[trigger]
            ends_after(i0, a0, m) && run(i0, a0, 2 * m).initiator == negotiated(i0, id, items)
                && run(i0, a0, 2 * m).acceptor == negotiated(a0, id, items),
    decreases turns_left(id, run(i0, a0, 2 * n).speaker(), run(i0, a0, 2 * n).listener()),
{
    let r = run(i0, a0, 2 * n);
    let s = r.speaker();
    let l = r.listener();
    let (s0, l0) = match r.turn {
        Side::Initiator => (i0, a0),
        Side::Acceptor => (a0, i0),
    };
    lemma_turn_begins(i0, a0, n);
    assert(2 * (n + 1) == 2 * n + 2);
    assert(s.id == s0.id);
    assert(speaks_at(i0, a0, n));
    if s.messages[0] is TxComplete {
        lemma_answer_completion(s0, l0, id, items, s, l);
        if l.channels[id].sent_complete {
            assert(ends_after(i0, a0, n + 1));
        } else {
            assert(goes_on_for(i0, a0, n + 1));
            lemma_run_goes_on(i0, a0, id, items, n + 1);
        }
    } else {
        lemma_answer_item(s0, l0, id, items, s, l);
        assert(goes_on_for(i0, a0, n + 1));
        lemma_run_goes_on(i0, a0, id, items, n + 1);
    }
}

/// Nodes that are ready to negotiate come to the end of their negotiation, and have then put
/// into the transaction what both had left, in turns.
pub proof fn law_ready_nodes_complete_their_negotiation(initiator: NodeView, acceptor: NodeView)
    requires
        initiator.inv(),
        acceptor.inv(),
        ready_to_negotiate(initiator, acceptor),
    ensures
        ({
            let id = channel_of(initiator.messages[0]);
            let items = final_items(initiator, acceptor, id);
            exists|n: nat| #[trigger]
                ends_after(initiator, acceptor, n) && {
                    let end = run(initiator, acceptor, 2 * n);
                    &&& end.initiator == negotiated(initiator, id, items)
                    &&& end.acceptor == negotiated(acceptor, id, items)
                }
        }),
{
    let id = channel_of(initiator.messages[0]);
    lemma_first_turn(initiator, acceptor);
    lemma_run_goes_on(initiator, acceptor, id, final_items(initiator, acceptor, id), 0);
}

/// Drives the interactive negotiation of a funding transaction between `initiator` and
/// `acceptor` to its end, for nodes that come to one: they take turns, the initiator first, and
/// each message is delivered to the other side before that side is polled. Returns when both
/// sides have sent their completion, one directly after the other. Panics if a side does not
/// hand out exactly one message of the negotiation, which the precondition rules out.
pub fn drive_interactive_tx_negotiation(initiator: &mut Node, acceptor: &mut Node)
    requires
        old(initiator).wf(),
        old(acceptor).wf(),
        ready_to_negotiate(old(initiator)@, old(acceptor)@) || comes_to_an_end(
            old(initiator)@,
            old(acceptor)@,
        ),
    ensures
        final(initiator).wf(),
        final(acceptor).wf(),
        exists|n: nat| #[trigger]
            ends_after(old(initiator)@, old(acceptor)@, n) && {
                let end = run(old(initiator)@, old(acceptor)@, 2 * n);
                final(initiator)@ == end.initiator && final(acceptor)@ == end.acceptor
            },
        ready_to_negotiate(old(initiator)@, old(acceptor)@) ==> {
            let id = channel_of(old(initiator)@.messages[0]);
            let items = final_items(old(initiator)@, old(acceptor)@, id);
            &&& final(initiator)@ == negotiated(old(initiator)@, id, items)
            &&& final(acceptor)@ == negotiated(old(acceptor)@, id, items)
        },
{
    proof {
        let i0 = initiator@;
        let a0 = acceptor@;
        if ready_to_negotiate(i0, a0) {
            law_ready_nodes_complete_their_negotiation(i0, a0);
        }
        let m = choose|m: nat| ends_after(i0, a0, m);
        lemma_one_outcome(i0, a0, m);
    }
    try_drive_interactive_tx_negotiation(initiator, acceptor).unwrap()
}

/// Taking turns changes nothing of what either party puts in and takes out.
pub proof fn lemma_in_turns_sats(a: Seq<NegotiatedView>, b: Seq<NegotiatedView>, who: bool)
    ensures
        input_sats(in_turns(a, b), who) == input_sats(a, who) + input_sats(b, who),
        output_sats(in_turns(a, b), who) == output_sats(a, who) + output_sats(b, who),
    decreases a.len() + b.len(),
{
    if a.len() > 0 {
        let first = seq![a[0]];
        let rest = a.remove(0);
        lemma_in_turns_sats(b, rest, who);
        lemma_sats_of_concat(first, in_turns(b, rest), who);
        lemma_sats_of_concat(first, rest, who);
        assert(first + rest =~= a);
    }
}

/// What one party contributes does not count for the other.
pub proof fn lemma_items_by_other(s: Seq<ContributionView>, by_initiator: bool)
    ensures
        input_sats(items_by(s, by_initiator), !by_initiator) == 0,
        output_sats(items_by(s, by_initiator), !by_initiator) == 0,
    decreases s.len(),
{
    if s.len() > 0 {
        lemma_items_by_other(s.drop_last(), by_initiator);
        assert(items_by(s, by_initiator).drop_last() =~= items_by(s.drop_last(), by_initiator));
    }
}

/// A party that puts in an amount owns an input.
pub proof fn lemma_owner_of_sats(items: Seq<NegotiatedView>, who: bool)
    requires
        input_sats(items, who) > 0,
    ensures
        owners_of(items).contains(who),
    decreases items.len(),
{
    let last = items.len() - 1;
    if items[last].item is Input && items[last].by_initiator == who {
        lemma_owner_of_item(items, last);
    } else {
        let rest = items.drop_last();
        lemma_owner_of_sats(rest, who);
        let j = choose|j: int| 0 <= j < owners_of(rest).len() && owners_of(rest)[j] == who;
        assert(owners_of(items)[j] == who);
    }
}

/// What the two sides have put in and taken out when their negotiation is over is what each
/// has pledged.
pub proof fn lemma_final_items_sats(i0: NodeView, a0: NodeView)
    requires
        ready_to_negotiate(i0, a0),
    ensures
        ({
            let id = channel_of(i0.messages[0]);
            let items = final_items(i0, a0, id);
            &&& input_sats(items, true) == i0.channels[id].pledged_input_sats()
            &&& output_sats(items, true) == i0.channels[id].pledged_output_sats()
            &&& input_sats(items, false) == a0.channels[id].pledged_input_sats()
            &&& output_sats(items, false) == a0.channels[id].pledged_output_sats()
        }),
{
    let id = channel_of(i0.messages[0]);
    let ci = i0.channels[id];
    let ca = a0.channels[id];
    let ours = items_by(ci.to_send, true);
    let theirs = items_by(ca.to_send, false);
    lemma_items_by_other(ci.to_send, true);
    lemma_items_by_other(ca.to_send, false);
    lemma_in_turns_sats(theirs, ours, true);
    lemma_in_turns_sats(theirs, ours, false);
    lemma_sats_of_concat(ci.items, in_turns(theirs, ours), true);
    lemma_sats_of_concat(ci.items, in_turns(theirs, ours), false);
}

/// The initiator of a negotiation puts in an input at some time, and so does an acceptor that
/// is about to hear a completion.
pub proof fn lemma_owners_of_final_items(i0: NodeView, a0: NodeView)
    requires
        i0.inv(),
        a0.inv(),
        ready_to_negotiate(i0, a0),
    ensures
        ({
            let id = channel_of(i0.messages[0]);
            let owners = owners_of(final_items(i0, a0, id));
            &&& owners.contains(true)
            &&& i0.channels[id].sent_complete ==> owners.contains(false)
        }),
{
    let id = channel_of(i0.messages[0]);
    let items = final_items(i0, a0, id);
    let ci = i0.channels[id];
    let ca = a0.channels[id];
    assert(i0.channels.contains_key(id) && a0.channels.contains_key(id));
    lemma_final_items_sats(i0, a0);
    lemma_owner_of_sats(items, true);
    if ci.sent_complete {
        let ours = items_by(ci.to_send, true);
        let theirs = items_by(ca.to_send, false);
        assert(ours =~= Seq::empty());
        lemma_in_turns_alone(theirs);
        if ca.to_send.len() > 0 {
            let k = ci.items.len() as int;
            assert(ca.to_send[0] is Input);
            assert(items[k] == theirs[0]);
            lemma_owner_of_item(items, k);
        } else {
            assert(items =~= ci.items);
        }
    }
}

/// Nodes that are ready to negotiate are at a turn of the initiator.
proof fn lemma_first_turn(i0: NodeView, a0: NodeView)
    requires
        i0.inv(),
        a0.inv(),
        ready_to_negotiate(i0, a0),
    ensures
        ({
            let id = channel_of(i0.messages[0]);
            &&& is_speaking(i0, a0, id, final_items(i0, a0, id), i0, a0)
            &&& i0.messages[0] is TxComplete ==> !a0.channels[id].sent_complete
        }),
{
    let id = channel_of(i0.messages[0]);
    lemma_owners_of_final_items(i0, a0);
    let ci = i0.channels[id];
    let ca = a0.channels[id];
    assert(i0.channels.contains_key(id) && a0.channels.contains_key(id));
    assert(ci.inv() && ca.inv());
    assert(i0.messages =~= seq![i0.messages[0]]);
    assert(i0.channels =~= i0.channels.insert(id, ci));
    assert(a0.channels =~= a0.channels.insert(id, ca));
    assert(a0.messages =~= Seq::empty());
    assert(NodeView { messages: Seq::empty(), ..a0 } == a0);
}

/// The end of a negotiation keeps the invariant on both sides.
pub proof fn lemma_negotiated_inv(i0: NodeView, a0: NodeView)
    requires
        i0.inv(),
        a0.inv(),
        ready_to_negotiate(i0, a0),
    ensures
        ({
            let id = channel_of(i0.messages[0]);
            let items = final_items(i0, a0, id);
            &&& negotiated(i0, id, items).inv()
            &&& negotiated(a0, id, items).inv()
        }),
{
    let id = channel_of(i0.messages[0]);
    let items = final_items(i0, a0, id);
    lemma_final_items_sats(i0, a0);
    lemma_ended_inv(i0, id, items);
    lemma_ended_inv(a0, id, items);
}

/// The end of a negotiation keeps the invariant of a node that has put in and taken out what it
/// has pledged.
proof fn lemma_ended_inv(n: NodeView, id: ChannelId, items: Seq<NegotiatedView>)
    requires
        n.inv(),
        n.channels.contains_key(id),
        n.channels[id].stage == Stage::Negotiating,
        input_sats(items, n.channels[id].is_initiator) == n.channels[id].pledged_input_sats(),
        output_sats(items, n.channels[id].is_initiator) == n.channels[id].pledged_output_sats(),
    ensures
        negotiated(n, id, items).inv(),
{
    let base = NodeView { messages: Seq::empty(), ..n };
    let c = ChannelView {
        items,
        to_send: Seq::empty(),
        sent_complete: true,
        ..n.channels[id]
    };
    assert(n.channels[id].inv());
    assert(base.inv()) by {
        assert forall|other: ChannelId| #[trigger] base.channels.contains_key(other) implies (
        base.channels[other].inv() && base.channels[other].channel_id == other) by {
            assert(n.channels.contains_key(other));
        }
    }
    assert(items_by(c.to_send, c.is_initiator) =~= Seq::empty());
    assert(input_sats(Seq::<NegotiatedView>::empty(), c.is_initiator) == 0);
    assert(output_sats(Seq::<NegotiatedView>::empty(), c.is_initiator) == 0);
    assert(c.inv());
    lemma_finish_inv(base, c);
}

} // verus!
