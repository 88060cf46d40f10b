//! Laws of the funding transaction: what is in it, and who put it there.

use vstd::prelude::*;
use crate::funding::{total_sats, FundingTxInputView};
use crate::ids::OutPoint;
use crate::items::{distinct_inputs, funding_tx, input_sats, inputs_of, items_by, output_sats};
use crate::items::{lemma_sats_of_concat, outpoint_of, owners_of, spends};
use crate::items::{NegotiatedView, TxItemView};
use crate::model::{as_contributions, NodeView};
use crate::lifecycle::{lemma_opening_starts, OpeningView};
use crate::negotiation::{final_items, in_turns, lemma_final_items_sats};
use crate::tx::{TransactionView, TxInView};

verus! {

/// Tells the inputs among items.
pub open spec fn tells_inputs() -> spec_fn(NegotiatedView) -> bool {
    |n: NegotiatedView| n.item is Input
}

/// Tells the outputs among items.
pub open spec fn tells_outputs() -> spec_fn(NegotiatedView) -> bool {
    |n: NegotiatedView| n.item is Output
}

/// The outputs that the inputs of a transaction spend, in order.
pub open spec fn spent_by(tx: TransactionView) -> Seq<OutPoint> {
    tx.input.map_values(|i: TxInView| i.previous_output)
}

/// The outputs that funding inputs spend, in order.
pub open spec fn outpoints(inputs: Seq<FundingTxInputView>) -> Seq<OutPoint> {
    inputs.map_values(|i: FundingTxInputView| i.outpoint)
}

/// The k-th input of a funding transaction spends the output that the k-th input item names, and
/// belongs to the party that put it in; the k-th output is the k-th output item. There is nothing
/// else in it, and it is not signed.
pub proof fn law_transaction_is_made_of_its_items(items: Seq<NegotiatedView>)
    ensures
        ({
            let tx = funding_tx(items);
            let owners = owners_of(items);
            let ins = items.filter(tells_inputs());
            let outs = items.filter(tells_outputs());
            &&& tx.version == 2
            &&& tx.lock_time == 0
            &&& tx.input.len() == ins.len()
            &&& owners.len() == ins.len()
            &&& tx.output.len() == outs.len()
            &&& forall|k: int|
                #![trigger tx.input[k]]
                #![trigger owners[k]]
                0 <= k < ins.len() ==> {
                    &&& ins[k].item matches TxItemView::Input { outpoint, value_sats }
                    &&& tx.input[k].previous_output == outpoint
                    &&& tx.input[k].script_sig == Seq::<u8>::empty()
                    &&& tx.input[k].sequence == 0xFFFF_FFFD
                    &&& tx.input[k].witness == Seq::<Seq<u8>>::empty()
                    &&& owners[k] == ins[k].by_initiator
                }
            &&& forall|k: int|
                0 <= k < outs.len() ==> {
                    &&& outs[k].item matches TxItemView::Output { output }
                    &&& #[trigger] tx.output[k] == output
                }
        }),
    decreases items.len(),
{
    reveal(Seq::filter);
    if items.len() > 0 {
        let rest = items.drop_last();
        law_transaction_is_made_of_its_items(rest);
        let a = funding_tx(rest);
        let b = funding_tx(items);
        assert(forall|k: int| 0 <= k < a.input.len() ==> #[trigger] b.input[k] == a.input[k]);
        assert(forall|k: int|
            0 <= k < a.input.len() ==> #[trigger] owners_of(items)[k] == owners_of(rest)[k]);
        assert(forall|k: int| 0 <= k < a.output.len() ==> #[trigger] b.output[k] == a.output[k]);
    }
}

/// The input items spend different outputs exactly if no two inputs of the transaction that they
/// make up spend the same one.
pub proof fn law_distinct_items_are_spent_once(items: Seq<NegotiatedView>)
    ensures
        distinct_inputs(items) <==> spent_by(funding_tx(items)).no_duplicates(),
{
    if distinct_inputs(items) {
        lemma_distinct_items(items);
    }
    if spent_by(funding_tx(items)).no_duplicates() {
        lemma_spent_once(items);
    }
}

/// A transaction that spends no output twice is made of distinct inputs.
proof fn lemma_spent_once(items: Seq<NegotiatedView>)
    requires
        spent_by(funding_tx(items)).no_duplicates(),
    ensures
        distinct_inputs(items),
    decreases items.len(),
{
    if items.len() > 0 {
        let rest = items.drop_last();
        let m = items.len() - 1;
        let a = spent_by(funding_tx(rest));
        let b = spent_by(funding_tx(items));
        assert(forall|k: int| 0 <= k < a.len() ==> #[trigger] a[k] == b[k]);
        assert(a.no_duplicates()) by {
            assert forall|i: int, j: int| 0 <= i < a.len() && 0 <= j < a.len() && i != j implies a[i]
                != a[j] by {
                assert(b[i] != b[j]);
            }
        }
        lemma_spent_once(rest);
        lemma_items_spent(rest);
        assert forall|i: int, j: int|
            0 <= i < items.len() && 0 <= j < items.len() && i != j && outpoint_of(
                (#[trigger] items[i]).item,
            ) is Some implies outpoint_of(items[i].item) != outpoint_of(
            (#[trigger] items[j]).item,
        ) by {
            if i < m {
                assert(items[i] == rest[i]);
            }
            if j < m {
                assert(items[j] == rest[j]);
            }
            if (i == m || j == m) && outpoint_of(items[i].item) == outpoint_of(items[j].item) {
                let o = outpoint_of(items[i].item)->0;
                let k = choose|k: int| 0 <= k < a.len() && a[k] == o;
                assert(b[k] == o && b[b.len() - 1] == o);
                assert(b.len() == a.len() + 1);
                assert(false);
            }
        }
    }
}

/// What was put in is spent.
proof fn lemma_items_spent(items: Seq<NegotiatedView>)
    ensures
        forall|k: int|
            0 <= k < items.len() ==> (outpoint_of((#[trigger] items[k]).item) matches Some(o)
                ==> spent_by(funding_tx(items)).contains(o)),
    decreases items.len(),
{
    if items.len() > 0 {
        let rest = items.drop_last();
        let a = spent_by(funding_tx(rest));
        let b = spent_by(funding_tx(items));
        lemma_items_spent(rest);
        assert forall|k: int| 0 <= k < items.len() implies (outpoint_of(
            (#[trigger] items[k]).item,
        ) matches Some(o) ==> b.contains(o)) by {
            if outpoint_of(items[k].item) is Some {
                let o = outpoint_of(items[k].item)->0;
                if k < rest.len() {
                    assert(rest[k] == items[k]);
                    let j = choose|j: int| 0 <= j < a.len() && a[j] == o;
                    assert(b[j] == o);
                } else {
                    assert(b[b.len() - 1] == o);
                }
            }
        }
    }
}

/// Distinct inputs are spent once.
proof fn lemma_distinct_items(items: Seq<NegotiatedView>)
    requires
        distinct_inputs(items),
    ensures
        spent_by(funding_tx(items)).no_duplicates(),
    decreases items.len(),
{
    if items.len() > 0 {
        let rest = items.drop_last();
        assert(forall|k: int| 0 <= k < rest.len() ==> #[trigger] rest[k] == items[k]);
        lemma_distinct_items(rest);
        lemma_spent_items(rest);
        let a = spent_by(funding_tx(rest));
        let b = spent_by(funding_tx(items));
        let last = items[items.len() - 1];
        if let TxItemView::Input { outpoint, value_sats } = last.item {
            assert(b =~= a.push(outpoint));
            assert forall|k: int| 0 <= k < a.len() implies a[k] != outpoint by {
                assert(spends(rest, a[k]));
                let j = choose|j: int|
                    0 <= j < rest.len() && outpoint_of((#[trigger] rest[j]).item) == Some(a[k]);
                assert(items[j] == rest[j]);
                assert(outpoint_of(items[j].item) != outpoint_of(items[items.len() - 1].item));
            }
        } else {
            assert(b =~= a);
        }
    }
}

/// What is spent was put in.
proof fn lemma_spent_items(items: Seq<NegotiatedView>)
    ensures
        forall|k: int|
            0 <= k < spent_by(funding_tx(items)).len() ==> spends(
                items,
                #[trigger] spent_by(funding_tx(items))[k],
            ),
    decreases items.len(),
{
    if items.len() > 0 {
        let rest = items.drop_last();
        lemma_spent_items(rest);
        let a = spent_by(funding_tx(rest));
        let b = spent_by(funding_tx(items));
        assert forall|k: int| 0 <= k < b.len() implies spends(items, #[trigger] b[k]) by {
            if k < a.len() {
                assert(a[k] == b[k]);
                let j = choose|j: int|
                    0 <= j < rest.len() && outpoint_of((#[trigger] rest[j]).item) == Some(a[k]);
                assert(items[j] == rest[j]);
            } else {
                assert(outpoint_of(items[items.len() - 1].item) == Some(b[k]));
            }
        }
    }
}

/// What one party has put in grows by the amount of an input of its own, and what it has taken
/// out by the amount of an output of its own; nothing else counts, and without items there is
/// nothing.
pub proof fn law_amounts_add_up(items: Seq<NegotiatedView>, next: NegotiatedView, who: bool)
    ensures
        input_sats(Seq::empty(), who) == 0,
        output_sats(Seq::empty(), who) == 0,
        input_sats(items.push(next), who) - input_sats(items, who) == (match next.item {
            TxItemView::Input { outpoint, value_sats } => if next.by_initiator == who {
                value_sats as int
            } else {
                0
            },
            TxItemView::Output { output } => 0,
        }),
        output_sats(items.push(next), who) - output_sats(items, who) == (match next.item {
            TxItemView::Input { outpoint, value_sats } => 0,
            TxItemView::Output { output } => if next.by_initiator == who {
                output.value_sats as int
            } else {
                0
            },
        }),
{
    assert(items.push(next).drop_last() =~= items);
}

/// Funding inputs are worth what the outputs are that they spend: one more input adds its amount.
pub proof fn law_inputs_add_up(inputs: Seq<FundingTxInputView>, next: FundingTxInputView)
    ensures
        total_sats(Seq::empty()) == 0,
        total_sats(inputs.push(next)) == total_sats(inputs) + next.output.value_sats,
{
    assert(inputs.push(next).drop_last() =~= inputs);
}

/// Two parties that take turns alternate as long as both have something, the first one first; then
/// the one that has more left gives the rest in order.
pub proof fn law_turns_alternate<T>(a: Seq<T>, b: Seq<T>, k: int)
    requires
        0 <= k,
    ensures
        in_turns(a, b).len() == a.len() + b.len(),
        k < a.len() && k <= b.len() ==> in_turns(a, b)[2 * k] == a[k],
        k < a.len() && k < b.len() ==> in_turns(a, b)[2 * k + 1] == b[k],
        b.len() <= k < a.len() ==> in_turns(a, b)[b.len() + k] == a[k],
        a.len() <= k < b.len() ==> in_turns(a, b)[a.len() + k] == b[k],
    decreases a.len() + b.len(),
{
    if a.len() > 0 {
        let rest = a.remove(0);
        let tail = in_turns(b, rest);
        assert(in_turns(a, b) == seq![a[0]] + tail);
        law_turns_alternate(b, rest, k);
        if k > 0 {
            law_turns_alternate(b, rest, k - 1);
        }
        assert(forall|j: int| 0 <= j < rest.len() ==> #[trigger] rest[j] == a[j + 1]);
        assert(forall|j: int| 0 <= j < tail.len() ==> #[trigger] in_turns(a, b)[j + 1] == tail[j]);
        if k == 0 {
            assert(in_turns(a, b)[0] == a[0]);
        }
        if k < a.len() && k <= b.len() && k > 0 {
            assert(in_turns(a, b)[2 * (k - 1) + 1 + 1] == tail[2 * (k - 1) + 1]);
        }
        if k < a.len() && k < b.len() {
            assert(in_turns(a, b)[2 * k + 1] == tail[2 * k]);
        }
        if b.len() <= k < a.len() && k > 0 {
            assert(in_turns(a, b)[b.len() + (k - 1) + 1] == tail[b.len() + (k - 1)]);
        }
        if a.len() <= k < b.len() {
            assert(in_turns(a, b)[rest.len() + k + 1] == tail[rest.len() + k]);
        }
    }
}

/// The inputs of two lists of items, one after the other.
proof fn lemma_inputs_of_concat(a: Seq<NegotiatedView>, b: Seq<NegotiatedView>)
    ensures
        inputs_of(a + b) == inputs_of(a) + inputs_of(b),
    decreases b.len(),
{
    if b.len() == 0 {
        assert(a + b =~= a);
        assert(inputs_of(a) + inputs_of(b) =~= inputs_of(a));
    } else {
        lemma_inputs_of_concat(a, b.drop_last());
        assert((a + b).drop_last() =~= a + b.drop_last());
        assert((a + b).last() == b.last());
        assert(inputs_of(a + b) =~= inputs_of(a) + inputs_of(b));
    }
}

/// The outputs that the inputs among `items` spend.
spec fn spent(items: Seq<NegotiatedView>) -> Seq<OutPoint> {
    inputs_of(items).map_values(|i: TxInView| i.previous_output)
}

/// What two lists of items spend, one after the other.
proof fn lemma_spent_concat(a: Seq<NegotiatedView>, b: Seq<NegotiatedView>)
    ensures
        spent(a + b) == spent(a) + spent(b),
        spent(a + b).to_multiset() == spent(a).to_multiset().add(spent(b).to_multiset()),
{
    lemma_inputs_of_concat(a, b);
    assert(spent(a + b) =~= spent(a) + spent(b));
    vstd::seq_lib::lemma_multiset_commutative(spent(a), spent(b));
}

/// Taking turns changes nothing of what is spent.
proof fn lemma_spent_in_turns(a: Seq<NegotiatedView>, b: Seq<NegotiatedView>)
    ensures
        spent(in_turns(a, b)).to_multiset() == spent(a).to_multiset().add(spent(b).to_multiset()),
    decreases a.len() + b.len(),
{
    broadcast use vstd::seq_lib::group_to_multiset_ensures;

    if a.len() == 0 {
        assert(spent(a) =~= Seq::empty());
        assert(spent(b).to_multiset() =~= spent(a).to_multiset().add(spent(b).to_multiset()));
    } else {
        let first = seq![a[0]];
        let rest = a.remove(0);
        lemma_spent_in_turns(b, rest);
        lemma_spent_concat(first, in_turns(b, rest));
        lemma_spent_concat(first, rest);
        assert(first + rest =~= a);
        assert(spent(in_turns(a, b)).to_multiset() =~= spent(a).to_multiset().add(
            spent(b).to_multiset(),
        ));
    }
}

/// What contributed inputs spend, and what they are worth.
proof fn lemma_spent_contributions(inputs: Seq<FundingTxInputView>, who: bool)
    ensures
        spent(items_by(as_contributions(inputs), who)) == outpoints(inputs),
        input_sats(items_by(as_contributions(inputs), who), who) == total_sats(inputs),
        input_sats(items_by(as_contributions(inputs), who), !who) == 0,
    decreases inputs.len(),
{
    let items = items_by(as_contributions(inputs), who);
    if inputs.len() == 0 {
        assert(spent(items) =~= outpoints(inputs));
    } else {
        let rest = inputs.drop_last();
        lemma_spent_contributions(rest, who);
        assert(items.drop_last() =~= items_by(as_contributions(rest), who));
        assert(spent(items) =~= spent(items.drop_last()).push(inputs.last().outpoint));
        assert(outpoints(inputs) =~= outpoints(rest).push(inputs.last().outpoint));
    }
}

/// The funding transaction that a proposal leads to spends exactly the outputs of the inputs that
/// both sides have contributed, each once, and each side has put in what its inputs are worth.
/// Both sides hold that transaction.
pub proof fn law_transaction_spends_every_contribution_once(
    o: OpeningView,
    proposer: NodeView,
    acceptor: NodeView,
)
    requires
        o.acceptable(proposer, acceptor),
    ensures
        ({
            let tx = o.proposer_done(proposer, acceptor).channels[o.id].tx;
            let items = o.proposer_done(proposer, acceptor).channels[o.id].items;
            &&& o.acceptor_done(proposer, acceptor).channels[o.id].tx == tx
            &&& o.acceptor_done(proposer, acceptor).channels[o.id].items == items
            &&& spent_by(tx).to_multiset() == outpoints(o.inputs).to_multiset().add(
                outpoints(o.contribution_inputs).to_multiset(),
            )
            &&& spent_by(tx).no_duplicates()
            &&& tx.input.len() == o.inputs.len() + o.contribution_inputs.len()
            &&& input_sats(items, true) == total_sats(o.inputs)
            &&& input_sats(items, false) == total_sats(o.contribution_inputs)
        }),
{
    broadcast use vstd::seq_lib::group_to_multiset_ensures;

    lemma_opening_starts(o, proposer, acceptor);
    let started = o.started(proposer, acceptor);
    let waiting = o.waiting(proposer, acceptor);
    let items = final_items(started, waiting, o.id);
    let first = started.channels[o.id].items;
    let ours = items_by(started.channels[o.id].to_send, true);
    let theirs = items_by(waiting.channels[o.id].to_send, false);
    let all = items_by(as_contributions(o.inputs), true);
    assert(started.channels[o.id].inv() && waiting.channels[o.id].inv());
    assert(as_contributions(o.inputs).len() > 0);
    assert(first =~= seq![all[0]]);
    let output = seq![ours.last()];
    assert(first + ours =~= all + output);
    assert(output[0].item is Output);
    assert(output.drop_last() =~= Seq::empty());
    assert(inputs_of(Seq::<NegotiatedView>::empty()) =~= Seq::empty());
    assert(output.last() == output[0]);
    assert(inputs_of(output) =~= Seq::empty());
    assert(spent(output) =~= Seq::empty());
    lemma_spent_contributions(o.inputs, true);
    lemma_spent_contributions(o.contribution_inputs, false);
    lemma_spent_concat(first, ours);
    lemma_spent_concat(all, output);
    lemma_spent_in_turns(theirs, ours);
    lemma_spent_concat(first, in_turns(theirs, ours));
    assert(spent_by(funding_tx(items)) == spent(items));
    assert(spent(items).to_multiset() =~= outpoints(o.inputs).to_multiset().add(
        outpoints(o.contribution_inputs).to_multiset(),
    ));
    law_distinct_items_are_spent_once(items);
    assert(spent(items).len() == spent(items).to_multiset().len());
    lemma_final_items_sats(started, waiting);
    lemma_sats_of_concat(first, ours, true);
    lemma_sats_of_concat(all, output, true);
    law_amounts_add_up(Seq::empty(), output[0], true);
    assert(Seq::<NegotiatedView>::empty().push(output[0]) =~= output);
    assert(waiting.channels[o.id].items =~= Seq::empty());
}

} // verus!
