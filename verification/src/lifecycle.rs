//! The whole way of a channel, from the proposal to the broadcast.

use vstd::prelude::*;
use crate::channel::{inputs_only, ConfirmationTarget};
use crate::config::UserConfig;
use crate::funding::{all_valid, total_sats, FundingTxInputView};
use crate::ids::ChannelId;
use crate::invariants::{lemma_accept_channel_inv, lemma_accept_inv, lemma_create_inv};
use crate::invariants::lemma_open_inv;
use crate::items::{distinct_inputs, inputs_of, items_by, outpoint_of, outputs_of, owners_of};
use crate::items::{ContributionView, NegotiatedView};
use crate::laws::{law_acceptance_starts_the_negotiation, law_exactly_one_side_signs_first};
use crate::laws::{law_both_sides_negotiate_the_same_transaction, signing_completes};
use crate::laws::{law_signing_ends_in_the_same_broadcast, law_wallet_owns_what_it_selects};
use crate::laws::{law_only_owners_of_inputs_are_asked_to_sign, law_wallet_signatures_are_accepted};
use crate::model::{as_contributions, commitment_message, none_empty, NodeView};
use crate::negotiation::{channel_of, final_items, in_turns, lemma_negotiated_inv};
use crate::negotiation::{lemma_owners_of_final_items, negotiated, ready_to_negotiate};
use crate::tx::{TransactionView, TxOutView};
use crate::wallet::WalletView;
use crate::witness::{count_owned, with_witnesses};

verus! {

/// What the two users decide about a channel: how it is proposed, and how it is accepted.
pub struct OpeningView {
    pub id: ChannelId,
    pub funding_sats: u64,
    pub inputs: Seq<FundingTxInputView>,
    pub user_channel_id: u128,
    pub override_config: Option<UserConfig>,
    pub target: ConfirmationTarget,
    pub contribution_sats: u64,
    pub contribution_inputs: Seq<FundingTxInputView>,
    pub acceptor_user_channel_id: u128,
    pub acceptor_override_config: Option<UserConfig>,
    pub zero_conf: bool,
    pub funding_script: Seq<u8>,
}

impl OpeningView {
    /// The proposer after it has proposed the channel to `acceptor`.
    pub open spec fn proposed(self, proposer: NodeView, acceptor: NodeView) -> NodeView {
        proposer.after_create(
            acceptor.id,
            self.funding_sats,
            self.inputs,
            self.user_channel_id,
            self.override_config,
            self.target,
            self.id,
        )
    }

    /// The acceptor after it was sent the proposal.
    pub open spec fn requested(self, proposer: NodeView, acceptor: NodeView) -> NodeView {
        let proposal = self.proposed(proposer, acceptor).messages.last();
        acceptor.after_open_channel_v2(proposer.id, proposal->OpenChannelV2_msg)
    }

    /// The acceptor after its user has accepted the channel.
    pub open spec fn accepted(self, proposer: NodeView, acceptor: NodeView) -> NodeView {
        self.requested(proposer, acceptor).after_accept(
            self.id,
            self.acceptor_user_channel_id,
            self.contribution_sats,
            self.contribution_inputs,
            self.zero_conf,
            self.acceptor_override_config,
        )
    }

    /// The acceptor while it waits for the first message of the negotiation.
    pub open spec fn waiting(self, proposer: NodeView, acceptor: NodeView) -> NodeView {
        NodeView { messages: Seq::empty(), ..self.accepted(proposer, acceptor) }
    }

    /// The proposer after it was sent the acceptor's answer.
    pub open spec fn started(self, proposer: NodeView, acceptor: NodeView) -> NodeView {
        let answer = self.accepted(proposer, acceptor).messages.last();
        NodeView {
            messages: Seq::empty(),
            ..self.proposed(proposer, acceptor)
        }.after_accept_channel_v2(acceptor.id, answer->AcceptChannelV2_msg, self.funding_script)
    }

    /// What both sides have put into the transaction when their negotiation is over.
    pub open spec fn items(self, proposer: NodeView, acceptor: NodeView) -> Seq<NegotiatedView> {
        final_items(
            self.started(proposer, acceptor),
            self.waiting(proposer, acceptor),
            self.id,
        )
    }

    /// The proposer when the negotiation is over.
    pub open spec fn proposer_done(self, proposer: NodeView, acceptor: NodeView) -> NodeView {
        negotiated(self.started(proposer, acceptor), self.id, self.items(proposer, acceptor))
    }

    /// The acceptor when the negotiation is over.
    pub open spec fn acceptor_done(self, proposer: NodeView, acceptor: NodeView) -> NodeView {
        negotiated(self.waiting(proposer, acceptor), self.id, self.items(proposer, acceptor))
    }

    /// Neither node has a reason to refuse the channel: dual funding is on, the name is free,
    /// the value is not too small, and both sides' inputs cover what they contribute and spend
    /// different outputs. The nodes are two different ones, and have nothing queued.
    pub open spec fn acceptable(self, proposer: NodeView, acceptor: NodeView) -> bool {
        &&& proposer.inv() && acceptor.inv()
        &&& proposer.id != acceptor.id
        &&& proposer.messages.len() == 0 && acceptor.messages.len() == 0
        &&& all_valid(self.inputs) && all_valid(self.contribution_inputs)
        &&& proposer.create_refusal(self.funding_sats, self.inputs, self.id) is None
        &&& acceptor.config.enable_dual_funded_channels
        &&& !acceptor.channels.contains_key(self.id)
        &&& total_sats(self.contribution_inputs) >= self.contribution_sats
        &&& self.funding_sats + self.contribution_sats <= u64::MAX
        &&& distinct_inputs(
            items_by(as_contributions(self.inputs), true) + items_by(
                as_contributions(self.contribution_inputs),
                false,
            ),
        )
    }
}

/// A proposal that nobody has a reason to refuse leads to a negotiation.
pub proof fn lemma_opening_starts(o: OpeningView, proposer: NodeView, acceptor: NodeView)
    requires
        o.acceptable(proposer, acceptor),
    ensures
        o.started(proposer, acceptor).inv(),
        o.waiting(proposer, acceptor).inv(),
        o.started(proposer, acceptor).id == proposer.id,
        o.waiting(proposer, acceptor).id == acceptor.id,
        ready_to_negotiate(o.started(proposer, acceptor), o.waiting(proposer, acceptor)),
        channel_of(o.started(proposer, acceptor).messages[0]) == o.id,
{
    let proposed = o.proposed(proposer, acceptor);
    let sent = NodeView { messages: Seq::empty(), ..proposed };
    let requested = o.requested(proposer, acceptor);
    let accepted = o.accepted(proposer, acceptor);
    lemma_create_inv(
        proposer,
        acceptor.id,
        o.funding_sats,
        o.inputs,
        o.user_channel_id,
        o.override_config,
        o.target,
        o.id,
    );
    lemma_cleared_inv(proposed);
    lemma_open_inv(acceptor, proposer.id, proposed.messages.last()->OpenChannelV2_msg);
    lemma_accept_inv(
        requested,
        o.id,
        proposer.id,
        o.acceptor_user_channel_id,
        o.contribution_sats,
        o.contribution_inputs,
        o.zero_conf,
        o.acceptor_override_config,
    );
    lemma_cleared_inv(accepted);
    law_acceptance_starts_the_negotiation(
        sent,
        requested,
        o.id,
        o.acceptor_user_channel_id,
        o.contribution_sats,
        o.contribution_inputs,
        o.zero_conf,
        o.acceptor_override_config,
        o.funding_script,
    );
    lemma_accept_channel_inv(
        sent,
        acceptor.id,
        accepted.messages.last()->AcceptChannelV2_msg,
        o.funding_script,
    );
}

/// Handing out the queued messages keeps the invariant.
proof fn lemma_cleared_inv(n: NodeView)
    requires
        n.inv(),
    ensures
        (NodeView { messages: Seq::empty(), ..n }).inv(),
{
    let after = NodeView { messages: Seq::empty(), ..n };
    assert forall|id: ChannelId| #[trigger] after.channels.contains_key(id) implies (
    after.channels[id].inv() && after.channels[id].channel_id == id) by {
        assert(n.channels.contains_key(id));
    }
}

/// The outputs among two lists of items, one after the other.
proof fn lemma_outputs_of_concat(a: Seq<NegotiatedView>, b: Seq<NegotiatedView>)
    ensures
        outputs_of(a + b) == outputs_of(a) + outputs_of(b),
    decreases b.len(),
{
    if b.len() == 0 {
        assert(a + b =~= a);
        assert(outputs_of(a) + outputs_of(b) =~= outputs_of(a));
    } else {
        lemma_outputs_of_concat(a, b.drop_last());
        assert((a + b).drop_last() =~= a + b.drop_last());
        assert((a + b).last() == b.last());
        assert(outputs_of(a + b) =~= outputs_of(a) + outputs_of(b));
    }
}

/// Every item is an input.
spec fn all_inputs(items: Seq<NegotiatedView>) -> bool {
    forall|k: int| 0 <= k < items.len() ==> (#[trigger] items[k]).item is Input
}

/// There are no outputs among inputs.
proof fn lemma_outputs_of_inputs(items: Seq<NegotiatedView>)
    requires
        all_inputs(items),
    ensures
        outputs_of(items) == Seq::<TxOutView>::empty(),
    decreases items.len(),
{
    if items.len() > 0 {
        assert(items.last().item is Input);
        assert(all_inputs(items.drop_last())) by {
            assert forall|k: int| 0 <= k < items.drop_last().len() implies (
            #[trigger] items.drop_last()[k]).item is Input by {
                assert(items[k].item is Input);
            }
        }
        lemma_outputs_of_inputs(items.drop_last());
    }
}

/// A party that adds inputs only leaves the outputs of the other as they are.
proof fn lemma_outputs_in_turns(a: Seq<NegotiatedView>, b: Seq<NegotiatedView>)
    requires
        all_inputs(a) || all_inputs(b),
    ensures
        outputs_of(in_turns(a, b)) == outputs_of(a) + outputs_of(b),
    decreases a.len() + b.len(),
{
    if a.len() == 0 {
        assert(outputs_of(a) + outputs_of(b) =~= outputs_of(b));
    } else {
        let first = seq![a[0]];
        let rest = a.remove(0);
        assert(all_inputs(a) ==> all_inputs(rest)) by {
            if all_inputs(a) {
                assert forall|k: int| 0 <= k < rest.len() implies (
                #[trigger] rest[k]).item is Input by {
                    assert(rest[k] == a[k + 1]);
                }
            }
        }
        lemma_outputs_in_turns(b, rest);
        lemma_outputs_of_concat(first, in_turns(b, rest));
        lemma_outputs_of_concat(first, rest);
        assert(first + rest =~= a);
        if all_inputs(a) {
            lemma_outputs_of_inputs(a);
            lemma_outputs_of_inputs(rest);
            assert(all_inputs(first));
            lemma_outputs_of_inputs(first);
        } else {
            lemma_outputs_of_inputs(b);
        }
        assert(outputs_of(in_turns(a, b)) =~= outputs_of(a) + outputs_of(b));
    }
}

/// The funding output: the whole value of the channel, paid to the funding script.
pub open spec fn funding_output(o: OpeningView) -> TxOutView {
    TxOutView {
        value_sats: (o.funding_sats + o.contribution_sats) as u64,
        script_pubkey: o.funding_script,
    }
}

/// The transaction that a proposal leads to has exactly one output: the funding output, which holds
/// what both sides contribute.
pub proof fn law_only_output_is_the_funding_output(
    o: OpeningView,
    proposer: NodeView,
    acceptor: NodeView,
)
    requires
        o.acceptable(proposer, acceptor),
    ensures
        o.proposer_done(proposer, acceptor).channels[o.id].tx.output == seq![funding_output(o)],
        o.acceptor_done(proposer, acceptor).channels[o.id].tx.output == seq![funding_output(o)],
        o.proposer_done(proposer, acceptor).channels[o.id].tx.output.len() == 1,
        o.proposer_done(proposer, acceptor).channels[o.id].tx.output[0].value_sats
            == o.funding_sats + o.contribution_sats,
        o.proposer_done(proposer, acceptor).channels[o.id].tx.output[0].script_pubkey
            == o.funding_script,
{
    lemma_opening_starts(o, proposer, acceptor);
    let started = o.started(proposer, acceptor);
    let waiting = o.waiting(proposer, acceptor);
    let ci = started.channels[o.id];
    let ca = waiting.channels[o.id];
    assert(ca.inv() && ci.inv());
    let before = o.proposed(proposer, acceptor).channels[o.id].to_send;
    let output = ContributionView::Output(funding_output(o));
    assert(before.len() > 0 && before[0] is Input);
    assert(ci.to_send =~= before.remove(0).push(output));
    let ours = items_by(ci.to_send, true);
    let theirs = items_by(ca.to_send, false);
    let inputs = items_by(before.remove(0), true);
    let last = seq![ours.last()];
    assert(ours =~= inputs + last);
    assert(all_inputs(inputs)) by {
        assert forall|k: int| 0 <= k < inputs.len() implies (
        #[trigger] inputs[k]).item is Input by {
            assert(before[k + 1] is Input);
        }
    }
    assert(all_inputs(theirs)) by {
        assert(inputs_only(ca.to_send));
        assert forall|k: int| 0 <= k < theirs.len() implies (
        #[trigger] theirs[k]).item is Input by {
            assert(ca.to_send[k] is Input);
        }
    }
    assert(all_inputs(ci.items));
    lemma_outputs_of_inputs(inputs);
    lemma_outputs_of_inputs(theirs);
    lemma_outputs_of_inputs(ci.items);
    lemma_outputs_of_concat(inputs, last);
    lemma_outputs_in_turns(theirs, ours);
    lemma_outputs_of_concat(ci.items, in_turns(theirs, ours));
    assert(last.drop_last() =~= Seq::empty());
    assert(outputs_of(Seq::<NegotiatedView>::empty()) =~= Seq::empty());
    assert(outputs_of(last) =~= seq![funding_output(o)]);
    assert(outputs_of(o.items(proposer, acceptor)) =~= seq![funding_output(o)]);
}

/// A channel that neither node has a reason to refuse comes into being. The acceptance makes the
/// two nodes ready to negotiate; when they have negotiated, a node with nothing to sign has queued
/// its commitment signature. When the users of the others have signed, before or after they were
/// sent the other node's commitment signature, the exchange of signatures completes, and ends with
/// both nodes having broadcast the same transaction.
pub proof fn law_opened_channel_is_broadcast_by_both_sides(
    o: OpeningView,
    proposer: NodeView,
    acceptor: NodeView,
    signed_by_proposer: TransactionView,
    signed_by_acceptor: TransactionView,
    proposer_hears_first: bool,
    acceptor_hears_first: bool,
)
    requires
        o.acceptable(proposer, acceptor),
        ({
            let p = o.proposer_done(proposer, acceptor);
            let a = o.acceptor_done(proposer, acceptor);
            &&& p.channels[o.id].holder_signed || p.signing_refusal(
                o.id,
                signed_by_proposer,
            ) is None
            &&& a.channels[o.id].holder_signed || a.signing_refusal(
                o.id,
                signed_by_acceptor,
            ) is None
        }),
    ensures
        ready_to_negotiate(o.started(proposer, acceptor), o.waiting(proposer, acceptor)),
        ({
            let p = o.proposer_done(proposer, acceptor);
            let a = o.acceptor_done(proposer, acceptor);
            &&& p.channels[o.id].holder_signed ==> p.messages.contains(
                commitment_message(acceptor.id, o.id),
            )
            &&& a.channels[o.id].holder_signed ==> a.messages.contains(
                commitment_message(proposer.id, o.id),
            )
            &&& if p.sends_signatures_first(p.channels[o.id]) {
                signing_completes(
                    p,
                    a,
                    o.id,
                    signed_by_proposer,
                    signed_by_acceptor,
                    proposer_hears_first,
                    acceptor_hears_first,
                )
            } else {
                signing_completes(
                    a,
                    p,
                    o.id,
                    signed_by_acceptor,
                    signed_by_proposer,
                    acceptor_hears_first,
                    proposer_hears_first,
                )
            }
        }),
{
    let started = o.started(proposer, acceptor);
    let waiting = o.waiting(proposer, acceptor);
    let p = o.proposer_done(proposer, acceptor);
    let a = o.acceptor_done(proposer, acceptor);
    lemma_opening_starts(o, proposer, acceptor);
    lemma_negotiated_inv(started, waiting);
    law_both_sides_negotiate_the_same_transaction(started, waiting);
    law_exactly_one_side_signs_first(p, a, o.id);
    let items = o.items(proposer, acceptor);
    law_only_owners_of_inputs_are_asked_to_sign(started, o.id, items);
    law_only_owners_of_inputs_are_asked_to_sign(waiting, o.id, items);
    if p.channels[o.id].holder_signed {
        assert(p.messages[0] == commitment_message(acceptor.id, o.id));
    }
    if a.channels[o.id].holder_signed {
        assert(a.messages[0] == commitment_message(proposer.id, o.id));
    }
    if p.sends_signatures_first(p.channels[o.id]) {
        law_signing_ends_in_the_same_broadcast(
            p,
            a,
            o.id,
            signed_by_proposer,
            signed_by_acceptor,
            proposer_hears_first,
            acceptor_hears_first,
        );
    } else {
        law_signing_ends_in_the_same_broadcast(
            a,
            p,
            o.id,
            signed_by_acceptor,
            signed_by_proposer,
            acceptor_hears_first,
            proposer_hears_first,
        );
    }
}

/// The wallet owns every output that one party's inputs among `items` spend.
spec fn owns_inputs(wallet: WalletView, items: Seq<NegotiatedView>, who: bool) -> bool {
    forall|k: int|
        0 <= k < items.len() && (#[trigger] items[k]).by_initiator == who ==> (outpoint_of(
            items[k].item,
        ) matches Some(outpoint) ==> wallet.owns(outpoint))
}

/// A wallet that owns the outputs of two lists of items owns those of the lists put together.
proof fn lemma_owns_concat(
    wallet: WalletView,
    a: Seq<NegotiatedView>,
    b: Seq<NegotiatedView>,
    who: bool,
)
    requires
        owns_inputs(wallet, a, who),
        owns_inputs(wallet, b, who),
    ensures
        owns_inputs(wallet, a + b, who),
{
    let s = a + b;
    assert forall|k: int| 0 <= k < s.len() && (#[trigger] s[k]).by_initiator == who implies (
    outpoint_of(s[k].item) matches Some(outpoint) ==> wallet.owns(outpoint)) by {
        if k < a.len() {
            assert(s[k] == a[k]);
        } else {
            assert(s[k] == b[k - a.len()]);
        }
    }
}

/// A wallet that owns the outputs of two lists of items owns those of the lists in turns.
proof fn lemma_owns_in_turns(
    wallet: WalletView,
    a: Seq<NegotiatedView>,
    b: Seq<NegotiatedView>,
    who: bool,
)
    requires
        owns_inputs(wallet, a, who),
        owns_inputs(wallet, b, who),
    ensures
        owns_inputs(wallet, in_turns(a, b), who),
    decreases a.len() + b.len(),
{
    if a.len() > 0 {
        let first = seq![a[0]];
        let rest = a.remove(0);
        assert(first[0] == a[0]);
        assert(forall|k: int| 0 <= k < rest.len() ==> #[trigger] rest[k] == a[k + 1]);
        lemma_owns_in_turns(wallet, b, rest, who);
        lemma_owns_concat(wallet, first, in_turns(b, rest), who);
    }
}

/// The inputs of the transaction spend what the items say.
proof fn lemma_owns_transaction_inputs(
    wallet: WalletView,
    items: Seq<NegotiatedView>,
    who: bool,
)
    requires
        owns_inputs(wallet, items, who),
    ensures
        inputs_of(items).len() == owners_of(items).len(),
        forall|k: int|
            0 <= k < inputs_of(items).len() && owners_of(items)[k] == who ==> wallet.owns(
                (#[trigger] inputs_of(items)[k]).previous_output,
            ),
    decreases items.len(),
{
    if items.len() > 0 {
        let rest = items.drop_last();
        assert(forall|k: int| 0 <= k < rest.len() ==> #[trigger] rest[k] == items[k]);
        lemma_owns_transaction_inputs(wallet, rest, who);
        let last = items[items.len() - 1];
        let inputs = inputs_of(items);
        let owners = owners_of(items);
        assert forall|k: int| 0 <= k < inputs.len() && owners[k] == who implies wallet.owns(
            (#[trigger] inputs[k]).previous_output,
        ) by {
            if k < inputs_of(rest).len() {
                assert(inputs[k] == inputs_of(rest)[k]);
                assert(owners[k] == owners_of(rest)[k]);
            } else {
                assert(outpoint_of(last.item) == Some(inputs[k].previous_output));
            }
        }
    }
}

/// A wallet owns the outputs of the inputs that it has selected, once they are contributions.
proof fn lemma_owns_selected(
    wallet: WalletView,
    funding_sats: u64,
    reserve_sats: u64,
    by_initiator: bool,
    who: bool,
)
    requires
        wallet.inv(),
        wallet.can_select(funding_sats, reserve_sats),
    ensures
        owns_inputs(
            wallet,
            items_by(
                as_contributions(wallet.selected_inputs(funding_sats, reserve_sats)),
                by_initiator,
            ),
            who,
        ),
{
    let inputs = wallet.selected_inputs(funding_sats, reserve_sats);
    let items = items_by(as_contributions(inputs), by_initiator);
    law_wallet_owns_what_it_selects(wallet, funding_sats, reserve_sats);
    assert forall|k: int| 0 <= k < items.len() && (#[trigger] items[k]).by_initiator
        == who implies (outpoint_of(items[k].item) matches Some(outpoint) ==> wallet.owns(outpoint))
        by {
        assert(wallet.owns(inputs[k].outpoint));
    }
}

/// What the proposer's wallet has selected, it can sign: when a channel that is funded out of it
/// has been negotiated, its signatures are accepted.
pub proof fn law_wallet_signs_what_it_proposes(
    o: OpeningView,
    proposer: NodeView,
    acceptor: NodeView,
    reserve_sats: u64,
    witnesses: Seq<Seq<Seq<u8>>>,
)
    requires
        o.acceptable(proposer, acceptor),
        proposer.wallet.can_select(o.funding_sats, reserve_sats),
        o.inputs == proposer.wallet.selected_inputs(o.funding_sats, reserve_sats),
        witnesses.len() == count_owned(
            proposer.wallet.owned_flags(
                o.proposer_done(proposer, acceptor).channels[o.id].tx,
            ),
            true,
        ),
        none_empty(witnesses),
    ensures
        ({
            let p = o.proposer_done(proposer, acceptor);
            let tx = p.channels[o.id].tx;
            let signed = TransactionView {
                input: with_witnesses(
                    tx.input,
                    proposer.wallet.owned_flags(tx),
                    true,
                    witnesses,
                ),
                ..tx
            };
            p.wallet == proposer.wallet && p.signing_refusal(o.id, signed) is None
        }),
{
    let started = o.started(proposer, acceptor);
    let waiting = o.waiting(proposer, acceptor);
    let p = o.proposer_done(proposer, acceptor);
    let items = o.items(proposer, acceptor);
    lemma_opening_starts(o, proposer, acceptor);
    lemma_negotiated_inv(started, waiting);
    lemma_owners_of_final_items(started, waiting);
    let ours = items_by(started.channels[o.id].to_send, true);
    let theirs = items_by(waiting.channels[o.id].to_send, false);
    let all = items_by(as_contributions(o.inputs), true);
    lemma_owns_selected(proposer.wallet, o.funding_sats, reserve_sats, true, true);
    let first = started.channels[o.id].items;
    assert(as_contributions(o.inputs).len() > 0) by {
        assert(waiting.channels[o.id].inv() && started.channels[o.id].inv());
    }
    assert(owns_inputs(proposer.wallet, first, true)) by {
        assert(first =~= seq![all[0]]);
        assert(first[0] == all[0]);
    }
    assert(owns_inputs(proposer.wallet, ours, true)) by {
        assert forall|k: int| 0 <= k < ours.len() && (#[trigger] ours[k]).by_initiator implies (
        outpoint_of(ours[k].item) matches Some(outpoint) ==> proposer.wallet.owns(outpoint)) by {
            if k + 1 < all.len() {
                assert(ours[k] == all[k + 1]);
            }
        }
    }
    assert(owns_inputs(proposer.wallet, theirs, true));
    lemma_owns_in_turns(proposer.wallet, theirs, ours, true);
    lemma_owns_concat(proposer.wallet, first, in_turns(theirs, ours), true);
    lemma_owns_transaction_inputs(proposer.wallet, items, true);
    assert forall|k: int|
        0 <= k < p.channels[o.id].tx.input.len() && p.channels[o.id].owners[k]
            == p.channels[o.id].is_initiator implies #[trigger] p.wallet.owns(
        p.channels[o.id].tx.input[k].previous_output,
    ) by {
        assert(p.channels[o.id].tx.input[k] == inputs_of(items)[k]);
    }
    law_wallet_signatures_are_accepted(p, o.id, witnesses);
}

/// What the acceptor's wallet has selected, it can sign: when a channel to which it contributes
/// has been negotiated, its signatures are accepted.
pub proof fn law_wallet_signs_what_it_contributes(
    o: OpeningView,
    proposer: NodeView,
    acceptor: NodeView,
    reserve_sats: u64,
    witnesses: Seq<Seq<Seq<u8>>>,
)
    requires
        o.acceptable(proposer, acceptor),
        acceptor.wallet.can_select(o.contribution_sats, reserve_sats),
        o.contribution_inputs == acceptor.wallet.selected_inputs(
            o.contribution_sats,
            reserve_sats,
        ),
        !o.acceptor_done(proposer, acceptor).channels[o.id].holder_signed,
        witnesses.len() == count_owned(
            acceptor.wallet.owned_flags(
                o.acceptor_done(proposer, acceptor).channels[o.id].tx,
            ),
            true,
        ),
        none_empty(witnesses),
    ensures
        ({
            let a = o.acceptor_done(proposer, acceptor);
            let tx = a.channels[o.id].tx;
            let signed = TransactionView {
                input: with_witnesses(
                    tx.input,
                    acceptor.wallet.owned_flags(tx),
                    true,
                    witnesses,
                ),
                ..tx
            };
            a.wallet == acceptor.wallet && a.signing_refusal(o.id, signed) is None
        }),
{
    let started = o.started(proposer, acceptor);
    let waiting = o.waiting(proposer, acceptor);
    let a = o.acceptor_done(proposer, acceptor);
    let items = o.items(proposer, acceptor);
    lemma_opening_starts(o, proposer, acceptor);
    lemma_negotiated_inv(started, waiting);
    let ours = items_by(started.channels[o.id].to_send, true);
    let theirs = items_by(waiting.channels[o.id].to_send, false);
    let first = started.channels[o.id].items;
    lemma_owns_selected(acceptor.wallet, o.contribution_sats, reserve_sats, false, false);
    assert(waiting.channels[o.id].to_send == as_contributions(o.contribution_inputs));
    assert(owns_inputs(acceptor.wallet, first, false)) by {
        assert(first.len() == 1);
    }
    assert(owns_inputs(acceptor.wallet, ours, false));
    lemma_owns_in_turns(acceptor.wallet, theirs, ours, false);
    lemma_owns_concat(acceptor.wallet, first, in_turns(theirs, ours), false);
    lemma_owns_transaction_inputs(acceptor.wallet, items, false);
    assert forall|k: int|
        0 <= k < a.channels[o.id].tx.input.len() && a.channels[o.id].owners[k]
            == a.channels[o.id].is_initiator implies #[trigger] a.wallet.owns(
        a.channels[o.id].tx.input[k].previous_output,
    ) by {
        assert(a.channels[o.id].tx.input[k] == inputs_of(items)[k]);
    }
    law_wallet_signatures_are_accepted(a, o.id, witnesses);
}

} // verus!
