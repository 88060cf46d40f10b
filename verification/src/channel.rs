//! The state of one dual-funded channel on one of its two sides.

use vstd::prelude::*;
use crate::config::UserConfig;
use crate::ids::{ChannelId, NodeId};
use crate::items::{Contribution, ContributionView, Negotiated, NegotiatedView};
use crate::items::{funding_tx, input_sats, items_by, output_sats, owners_of};
use crate::tx::{Transaction, TransactionView};
use crate::views::{group_view_all, view_all};
use crate::witness::all_signed;

verus! {

broadcast use group_view_all;

/// The least value of a channel.
pub const MIN_CHANNEL_SATS: u64 = 1_000;

/// What a fee estimate is for.
#[derive(Clone, Copy, Debug, PartialEq, Eq, Structural)]
pub enum ConfirmationTarget {
    AnchorChannelFee,
    NonAnchorChannelFee,
}

/// How far a channel has come.
#[derive(Clone, Copy, Debug, PartialEq, Eq, Structural)]
pub enum Stage {
    /// This side has proposed the channel and waits for an answer.
    OpenSent,
    /// The counterparty has proposed the channel and waits for an answer.
    Requested,
    /// The two sides build the funding transaction.
    Negotiating,
    /// The funding transaction is complete, and signatures are exchanged.
    Signing,
    /// The funding transaction has been broadcast.
    Broadcast,
}

/// One side of a channel.
#[derive(Debug)]
pub struct Channel {
    pub channel_id: ChannelId,
    pub counterparty: NodeId,
    pub user_channel_id: u128,
    /// This side has proposed the channel.
    pub is_initiator: bool,
    pub config: UserConfig,
    /// The channel is used before its funding transaction is confirmed.
    pub zero_conf: bool,
    /// The fee target that the initiator has asked for.
    pub confirmation_target: Option<ConfirmationTarget>,
    pub our_funding_sats: u64,
    pub their_funding_sats: u64,
    pub stage: Stage,
    /// What this side has yet to put into the funding transaction.
    pub to_send: Vec<Contribution>,
    /// What has been put into the funding transaction, by either side.
    pub items: Vec<Negotiated>,
    /// The last message of the negotiation that this side sent was a completion.
    pub sent_complete: bool,
    /// The funding transaction, once it is complete.
    pub tx: Transaction,
    /// For each input of `tx`, whether it is the initiator's.
    pub owners: Vec<bool>,
    /// This side has signed its inputs, and has sent its commitment signature.
    pub holder_signed: bool,
    pub received_commitment: bool,
    pub sent_signatures: bool,
    pub received_signatures: bool,
}

/// What a [`Channel`] holds.
pub struct ChannelView {
    pub channel_id: ChannelId,
    pub counterparty: NodeId,
    pub user_channel_id: u128,
    pub is_initiator: bool,
    pub config: UserConfig,
    pub zero_conf: bool,
    pub confirmation_target: Option<ConfirmationTarget>,
    pub our_funding_sats: u64,
    pub their_funding_sats: u64,
    pub stage: Stage,
    pub to_send: Seq<ContributionView>,
    pub items: Seq<NegotiatedView>,
    pub sent_complete: bool,
    pub tx: TransactionView,
    pub owners: Seq<bool>,
    pub holder_signed: bool,
    pub received_commitment: bool,
    pub sent_signatures: bool,
    pub received_signatures: bool,
}

impl View for Channel {
    type V = ChannelView;

    open spec fn view(&self) -> ChannelView {
        ChannelView {
            channel_id: self.channel_id,
            counterparty: self.counterparty,
            user_channel_id: self.user_channel_id,
            is_initiator: self.is_initiator,
            config: self.config,
            zero_conf: self.zero_conf,
            confirmation_target: self.confirmation_target,
            our_funding_sats: self.our_funding_sats,
            their_funding_sats: self.their_funding_sats,
            stage: self.stage,
            to_send: view_all(self.to_send@),
            items: view_all(self.items@),
            sent_complete: self.sent_complete,
            tx: self.tx@,
            owners: self.owners@,
            holder_signed: self.holder_signed,
            received_commitment: self.received_commitment,
            sent_signatures: self.sent_signatures,
            received_signatures: self.received_signatures,
        }
    }
}

/// Every input among `contributions` is valid.
pub open spec fn contributions_valid(contributions: Seq<ContributionView>) -> bool {
    forall|k: int|
        0 <= k < contributions.len() ==> ((#[trigger] contributions[k]) matches
            ContributionView::Input(input) ==> input.valid())
}

/// Every contribution is an input.
pub open spec fn inputs_only(contributions: Seq<ContributionView>) -> bool {
    forall|k: int| 0 <= k < contributions.len() ==> (#[trigger] contributions[k]) is Input
}

/// What holds of all contributions holds of all but the first.
pub proof fn lemma_rest_of_contributions(s: Seq<ContributionView>)
    requires
        s.len() > 0,
    ensures
        contributions_valid(s) ==> contributions_valid(s.remove(0)),
        inputs_only(s) ==> inputs_only(s.remove(0)),
{
    let rest = s.remove(0);
    assert(forall|k: int| 0 <= k < rest.len() ==> #[trigger] rest[k] == s[k + 1]);
}

impl ChannelView {
    /// The funding transaction is not complete yet.
    pub open spec fn unfunded(self) -> bool {
        self.stage == Stage::OpenSent || self.stage == Stage::Requested || self.stage
            == Stage::Negotiating
    }

    /// What this side's inputs are worth: those in the transaction and those to come.
    pub open spec fn pledged_input_sats(self) -> int {
        input_sats(self.items, self.is_initiator) + input_sats(
            items_by(self.to_send, self.is_initiator),
            self.is_initiator,
        )
    }

    /// What this side's outputs take: those in the transaction and those to come.
    pub open spec fn pledged_output_sats(self) -> int {
        output_sats(self.items, self.is_initiator) + output_sats(
            items_by(self.to_send, self.is_initiator),
            self.is_initiator,
        )
    }

    /// What holds of a channel before its funding transaction is complete.
    pub open spec fn unfunded_inv(self) -> bool {
        &&& self.tx.input.len() == 0
        &&& self.owners.len() == 0
        &&& !self.holder_signed
        &&& !self.received_commitment
        &&& !self.sent_signatures
        &&& !self.received_signatures
        &&& self.stage != Stage::Negotiating ==> {
            &&& self.items.len() == 0
            &&& !self.sent_complete
            &&& self.is_initiator == (self.stage == Stage::OpenSent)
        }
        &&& self.stage == Stage::Requested ==> self.to_send.len() == 0
    }

    /// What holds of a channel once its funding transaction is complete. The transaction is
    /// the negotiated one, and a party that counts as having signed has signed every input
    /// of its own. Signatures leave this side only when it holds the counterparty's signature
    /// on its commitment transaction.
    pub open spec fn funded_inv(self) -> bool {
        &&& self.to_send.len() == 0
        &&& self.tx.unsigned() == funding_tx(self.items)
        &&& self.owners == owners_of(self.items)
        &&& self.holder_signed ==> all_signed(self.tx.input, self.owners, self.is_initiator)
        &&& self.received_signatures ==> {
            &&& self.received_commitment
            &&& all_signed(self.tx.input, self.owners, !self.is_initiator)
        }
        &&& self.sent_signatures ==> self.holder_signed && self.received_commitment
    }

    /// The transaction has been broadcast exactly if both sides' signatures were exchanged.
    pub open spec fn broadcast_when_signed(self) -> bool {
        (self.stage == Stage::Broadcast) == (self.sent_signatures && self.received_signatures)
    }

    /// What holds of every channel between two calls.
    pub open spec fn inv(self) -> bool {
        self.inner_inv() && self.broadcast_when_signed()
    }

    /// What holds of every channel even within a call. A side never puts less into the
    /// funding transaction than it takes out or owes to the channel.
    pub open spec fn inner_inv(self) -> bool {
        &&& contributions_valid(self.to_send)
        &&& !self.is_initiator || self.stage == Stage::OpenSent ==> inputs_only(self.to_send)
        &&& self.sent_complete ==> self.to_send.len() == 0
        &&& self.owners.len() == self.tx.input.len()
        &&& self.unfunded() ==> self.unfunded_inv()
        &&& !self.unfunded() ==> self.funded_inv()
        &&& self.is_initiator ==> self.our_funding_sats >= MIN_CHANNEL_SATS
        &&& self.stage != Stage::Requested ==> self.pledged_input_sats() >= self.our_funding_sats
        &&& self.stage == Stage::OpenSent || self.stage == Stage::Requested || !self.is_initiator
            ==> self.pledged_output_sats() == 0
        &&& self.stage != Stage::OpenSent && self.is_initiator ==> self.pledged_output_sats()
            == self.our_funding_sats + self.their_funding_sats
    }
}

/// What is left of a channel that is gone.
#[derive(Clone, Copy, Debug)]
pub struct ClosedChannel {
    pub channel_id: ChannelId,
    pub counterparty: NodeId,
    pub user_channel_id: u128,
}

/// What is left of `channel` when it is gone.
pub open spec fn closed(channel: ChannelView) -> ClosedChannel {
    ClosedChannel {
        channel_id: channel.channel_id,
        counterparty: channel.counterparty,
        user_channel_id: channel.user_channel_id,
    }
}

/// The channels of a node, by their names.
#[derive(Debug)]
pub struct ChannelTable {
    channels: Vec<Channel>,
}

/// `k` is where the channel named `id` stands in `channels`.
spec fn stands_at(channels: Seq<Channel>, id: ChannelId, k: int) -> bool {
    0 <= k < channels.len() && channels[k].channel_id == id
}

impl View for ChannelTable {
    type V = Map<ChannelId, ChannelView>;

    closed spec fn view(&self) -> Map<ChannelId, ChannelView> {
        Map::new(
            |id: ChannelId| exists|k: int| stands_at(self.channels@, id, k),
            |id: ChannelId| self.channels@[choose|k: int| stands_at(self.channels@, id, k)]@,
        )
    }
}

impl ChannelTable {
    /// No two channels have the same name.
    pub closed spec fn wf(self) -> bool {
        forall|i: int, j: int|
            0 <= i < self.channels.len() && 0 <= j < self.channels.len() && i != j
                ==> #[trigger] self.channels@[i].channel_id != #[trigger] self.channels@[j].channel_id
    }

    /// A channel is found under its own name.
    proof fn lemma_lookup(self, k: int)
        requires
            self.wf(),
            0 <= k < self.channels.len(),
        ensures
            self@.contains_key(self.channels@[k].channel_id),
            self@[self.channels@[k].channel_id] == self.channels@[k]@,
    {
        let id = self.channels@[k].channel_id;
        assert(stands_at(self.channels@, id, k));
        let j = choose|j: int| stands_at(self.channels@, id, j);
        assert(stands_at(self.channels@, id, j));
    }

    /// Each channel stands under its own name.
    pub proof fn lemma_names(self)
        requires
            self.wf(),
        ensures
            forall|id: ChannelId|
                self@.contains_key(id) ==> (#[trigger] self@[id]).channel_id == id,
    {
        assert forall|id: ChannelId| self@.contains_key(id) implies (#[trigger] self@[id]).channel_id
            == id by {
            let k = choose|k: int| stands_at(self.channels@, id, k);
            assert(stands_at(self.channels@, id, k));
        }
    }

    /// A table without channels.
    pub fn new() -> (t: ChannelTable)
        ensures
            t.wf(),
            t@ == Map::<ChannelId, ChannelView>::empty(),
    {
        let t = ChannelTable { channels: Vec::new() };
        assert(t@ =~= Map::<ChannelId, ChannelView>::empty());
        t
    }

    /// Where the channel named `id` stands.
    fn find(&self, id: &ChannelId) -> (r: Option<usize>)
        requires
            self.wf(),
        ensures
            match r {
                Some(k) => {
                    &&& k < self.channels.len()
                    &&& self.channels@[k as int].channel_id == *id
                    &&& self@.contains_key(*id)
                    &&& self@[*id] == self.channels@[k as int]@
                },
                None => !self@.contains_key(*id),
            },
    {
        let mut k: usize = 0;
        while k < self.channels.len()
            invariant
                self.wf(),
                k <= self.channels.len(),
                forall|j: int| 0 <= j < k ==> #[trigger] self.channels@[j].channel_id != *id,
            decreases self.channels.len() - k,
        {
            if self.channels[k].channel_id == *id {
                proof {
                    self.lemma_lookup(k as int);
                }
                return Some(k);
            }
            k = k + 1;
        }
        assert(forall|j: int| !stands_at(self.channels@, *id, j));
        None
    }

    /// The channel named `id`.
    pub fn get(&self, id: &ChannelId) -> (r: Option<&Channel>)
        requires
            self.wf(),
        ensures
            match r {
                Some(c) => self@.contains_key(*id) && self@[*id] == c@ && c.channel_id == *id,
                None => !self@.contains_key(*id),
            },
    {
        match self.find(id) {
            Some(k) => Some(&self.channels[k]),
            None => None,
        }
    }

    /// Takes the channel named `id` out of the table.
    pub fn take(&mut self, id: &ChannelId) -> (c: Channel)
        requires
            old(self).wf(),
            old(self)@.contains_key(*id),
        ensures
            final(self).wf(),
            c@ == old(self)@[*id],
            c.channel_id == *id,
            final(self)@ == old(self)@.remove(*id),
            final(self).size() < old(self).size(),
    {
        let k: usize = self.find(id).unwrap();
        let ghost before = *self;
        let c = self.channels.remove(k);
        proof {
            let after = *self;
            assert(after.channels@ == before.channels@.remove(k as int));
            assert forall|i: int, j: int|
                0 <= i < after.channels.len() && 0 <= j < after.channels.len() && i
                    != j implies #[trigger] after.channels@[i].channel_id
                != #[trigger] after.channels@[j].channel_id by {
                let a = if i < k { i } else { i + 1 };
                let b = if j < k { j } else { j + 1 };
                assert(after.channels@[i] == before.channels@[a]);
                assert(after.channels@[j] == before.channels@[b]);
            }
            assert forall|other: ChannelId| #[trigger] after@.contains_key(other)
                == before@.remove(*id).contains_key(other) by {
                if after@.contains_key(other) {
                    let j = choose|j: int| stands_at(after.channels@, other, j);
                    assert(stands_at(after.channels@, other, j));
                    let b = if j < k { j } else { j + 1 };
                    assert(after.channels@[j] == before.channels@[b]);
                    assert(stands_at(before.channels@, other, b));
                    assert(before.channels@[k as int].channel_id == *id);
                }
                if before@.remove(*id).contains_key(other) {
                    let j = choose|j: int| stands_at(before.channels@, other, j);
                    assert(stands_at(before.channels@, other, j));
                    let b = if j < k { j } else { j - 1 };
                    assert(after.channels@[b] == before.channels@[j]);
                    assert(stands_at(after.channels@, other, b));
                }
            }
            assert forall|other: ChannelId| #[trigger]
                after@.contains_key(other) implies after@[other] == before@.remove(*id)[other] by {
                let j = choose|j: int| stands_at(after.channels@, other, j);
                assert(stands_at(after.channels@, other, j));
                let b = if j < k { j } else { j + 1 };
                assert(after.channels@[j] == before.channels@[b]);
                after.lemma_lookup(j);
                before.lemma_lookup(b);
                assert(before@.remove(*id).contains_key(other));
            }
            assert(after@ =~= before@.remove(*id));
        }
        c
    }

    /// Puts a channel into the table.
    pub fn put(&mut self, c: Channel)
        requires
            old(self).wf(),
            !old(self)@.contains_key(c.channel_id),
        ensures
            final(self).wf(),
            final(self)@ == old(self)@.insert(c.channel_id, c@),
    {
        let ghost before = *self;
        let ghost id = c.channel_id;
        self.channels.push(c);
        proof {
            let after = *self;
            let n = before.channels.len() as int;
            assert forall|j: int| 0 <= j < n implies #[trigger] before.channels@[j].channel_id
                != id by {
                before.lemma_lookup(j);
            }
            assert(after.channels@[n].channel_id == id);
            assert(forall|j: int| 0 <= j < n ==> #[trigger] after.channels@[j] == before.channels@[j]);
            assert(after.wf());
            assert forall|other: ChannelId| #[trigger] after@.contains_key(other)
                == before@.insert(id, c@).contains_key(other) by {
                if after@.contains_key(other) {
                    let j = choose|j: int| stands_at(after.channels@, other, j);
                    assert(stands_at(after.channels@, other, j));
                    if j < n {
                        assert(stands_at(before.channels@, other, j));
                    }
                }
                if before@.insert(id, c@).contains_key(other) {
                    if other == id {
                        assert(stands_at(after.channels@, other, n));
                    } else {
                        let j = choose|j: int| stands_at(before.channels@, other, j);
                        assert(stands_at(before.channels@, other, j));
                        assert(stands_at(after.channels@, other, j));
                    }
                }
            }
            assert forall|other: ChannelId| #[trigger]
                after@.contains_key(other) implies after@[other] == before@.insert(
                id,
                c@,
            )[other] by {
                let j = choose|j: int| stands_at(after.channels@, other, j);
                assert(stands_at(after.channels@, other, j));
                after.lemma_lookup(j);
                if j < n {
                    before.lemma_lookup(j);
                }
            }
            assert(after@ =~= before@.insert(id, c@));
        }
    }
}

/// `channel` is lost when `peer` disconnects, or when the node restarts if `peer` is none: its
/// funding transaction is not complete.
pub open spec fn is_lost(channel: ChannelView, peer: Option<NodeId>) -> bool {
    channel.unfunded() && (peer matches Some(p) ==> channel.counterparty == p)
}

/// The channels that are not lost.
pub open spec fn kept(channels: Map<ChannelId, ChannelView>, peer: Option<NodeId>) -> Map<
    ChannelId,
    ChannelView,
> {
    Map::new(
        |id: ChannelId| channels.contains_key(id) && !is_lost(channels[id], peer),
        |id: ChannelId| channels[id],
    )
}

/// `gone` lists the channels that are lost, each once.
pub open spec fn lists_lost(
    channels: Map<ChannelId, ChannelView>,
    peer: Option<NodeId>,
    gone: Seq<ClosedChannel>,
) -> bool {
    &&& forall|k: int|
        0 <= k < gone.len() ==> {
            let id = (#[trigger] gone[k]).channel_id;
            channels.contains_key(id) && is_lost(channels[id], peer) && gone[k] == closed(
                channels[id],
            )
        }
    &&& forall|id: ChannelId| #[trigger]
        channels.contains_key(id) && is_lost(channels[id], peer) ==> gone.contains(
            closed(channels[id]),
        )
    &&& gone.no_duplicates()
}

impl ChannelTable {
    /// Takes a channel out of the table, if there is one.
    fn pop(&mut self) -> (r: Option<Channel>)
        requires
            old(self).wf(),
        ensures
            final(self).wf(),
            match r {
                Some(c) => {
                    &&& old(self)@.contains_key(c.channel_id)
                    &&& c@ == old(self)@[c.channel_id]
                    &&& final(self)@ == old(self)@.remove(c.channel_id)
                    &&& final(self).size() < old(self).size()
                },
                None => {
                    &&& old(self)@ =~= Map::<ChannelId, ChannelView>::empty()
                    &&& *final(self) == *old(self)
                },
            },
    {
        if self.channels.len() == 0 {
            assert(self@ =~= Map::<ChannelId, ChannelView>::empty());
            return None;
        }
        let id = self.channels[0].channel_id;
        proof {
            self.lemma_lookup(0);
        }
        Some(self.take(&id))
    }

    /// How many channels there are.
    pub closed spec fn size(self) -> nat {
        self.channels@.len()
    }

    /// Drops the channels that are lost, and hands out what is left of them.
    pub fn drop_lost(&mut self, peer: Option<NodeId>) -> (gone: Vec<ClosedChannel>)
        requires
            old(self).wf(),
        ensures
            final(self).wf(),
            final(self)@ == kept(old(self)@, peer),
            lists_lost(old(self)@, peer, gone@),
    {
        let ghost all = self@;
        proof {
            self.lemma_names();
        }
        let mut rest = ChannelTable::new();
        std::mem::swap(&mut rest, self);
        let mut gone: Vec<ClosedChannel> = Vec::new();
        loop
            invariant
                self.wf(),
                rest.wf(),
                forall|id: ChannelId|
                    all.contains_key(id) ==> (#[trigger] all[id]).channel_id == id,
                forall|id: ChannelId| #[trigger]
                    rest@.contains_key(id) ==> all.contains_key(id) && rest@[id] == all[id]
                        && !self@.contains_key(id),
                forall|id: ChannelId| #[trigger]
                    self@.contains_key(id) ==> all.contains_key(id) && self@[id] == all[id]
                        && !is_lost(all[id], peer),
                forall|id: ChannelId| #[trigger]
                    all.contains_key(id) ==> rest@.contains_key(id) || self@.contains_key(id)
                        || gone@.contains(closed(all[id])),
                forall|k: int|
                    0 <= k < gone@.len() ==> {
                        let id = (#[trigger] gone@[k]).channel_id;
                        &&& all.contains_key(id) && is_lost(all[id], peer)
                        &&& gone@[k] == closed(all[id])
                        &&& !rest@.contains_key(id)
                    },
                gone@.no_duplicates(),
                all == old(self)@,
            decreases rest.size(),
        {
            let ghost rest_before = rest@;
            let ghost self_before = self@;
            let ghost gone_before = gone@;
            match rest.pop() {
                Some(c) => {
                    let ghost id = c.channel_id;
                    let lost = (c.stage == Stage::OpenSent || c.stage == Stage::Requested || c.stage
                        == Stage::Negotiating) && (match peer {
                        Some(p) => c.counterparty == p,
                        None => true,
                    });
                    assert(lost == is_lost(all[id], peer));
                    if lost {
                        gone.push(
                            ClosedChannel {
                                channel_id: c.channel_id,
                                counterparty: c.counterparty,
                                user_channel_id: c.user_channel_id,
                            },
                        );
                        proof {
                            let n = gone_before.len() as int;
                            assert(gone@[n] == closed(all[id]));
                            assert forall|k: int| 0 <= k < n implies gone@[k] != gone@[n] by {
                                assert(gone@[k] == gone_before[k]);
                                assert(!rest_before.contains_key(gone_before[k].channel_id));
                            }
                            assert forall|other: ChannelId| #[trigger]
                                all.contains_key(other) implies rest@.contains_key(other)
                                || self@.contains_key(other) || gone@.contains(
                                closed(all[other]),
                            ) by {
                                if other == id {
                                    assert(gone@[n] == closed(all[other]));
                                } else if gone_before.contains(closed(all[other])) {
                                    let k = choose|k: int|
                                        0 <= k < gone_before.len() && gone_before[k] == closed(
                                            all[other],
                                        );
                                    assert(gone@[k] == gone_before[k]);
                                }
                            }
                        }
                    } else {
                        self.put(c);
                        assert forall|other: ChannelId| #[trigger]
                            all.contains_key(other) implies rest@.contains_key(other)
                            || self@.contains_key(other) || gone@.contains(closed(all[other])) by {
                            if other != id && self_before.contains_key(other) {
                                assert(self@.contains_key(other));
                            }
                        }
                    }
                },
                None => {
                    proof {
                        assert forall|id: ChannelId| #[trigger]
                            self@.contains_key(id) == kept(all, peer).contains_key(id) by {
                            if all.contains_key(id) && !self@.contains_key(id) {
                                let k = choose|k: int|
                                    0 <= k < gone@.len() && gone@[k] == closed(all[id]);
                                assert(gone@[k].channel_id == id);
                            }
                        }
                        assert(self@ =~= kept(all, peer));
                    }
                    return gone;
                },
            }
        }
    }
}

} // verus!
