//! What two parties put into the funding transaction that they negotiate.

use vstd::prelude::*;
use crate::funding::{FundingTxInput, FundingTxInputView};
use crate::ids::OutPoint;
use crate::tx::{Transaction, TransactionView, TxIn, TxInView, TxOut, TxOutView};
use crate::tx::{FUNDING_SEQUENCE, TX_LOCK_TIME, TX_VERSION};
use crate::views::{group_view_all, view_all};

verus! {

broadcast use group_view_all;

/// Something that a party is going to put into the transaction.
#[derive(Debug)]
pub enum Contribution {
    Input(FundingTxInput),
    Output(TxOut),
}

/// What a [`Contribution`] holds.
pub enum ContributionView {
    Input(FundingTxInputView),
    Output(TxOutView),
}

impl View for Contribution {
    type V = ContributionView;

    open spec fn view(&self) -> ContributionView {
        match *self {
            Contribution::Input(input) => ContributionView::Input(input@),
            Contribution::Output(output) => ContributionView::Output(output@),
        }
    }
}

/// Something that has been put into the transaction.
#[derive(Debug)]
pub enum TxItem {
    Input { outpoint: OutPoint, value_sats: u64 },
    Output { output: TxOut },
}

/// What a [`TxItem`] holds.
pub enum TxItemView {
    Input { outpoint: OutPoint, value_sats: u64 },
    Output { output: TxOutView },
}

impl View for TxItem {
    type V = TxItemView;

    open spec fn view(&self) -> TxItemView {
        match *self {
            TxItem::Input { outpoint, value_sats } => TxItemView::Input { outpoint, value_sats },
            TxItem::Output { output } => TxItemView::Output { output: output@ },
        }
    }
}

/// An item of the transaction and who put it there.
#[derive(Debug)]
pub struct Negotiated {
    pub by_initiator: bool,
    pub item: TxItem,
}

/// What a [`Negotiated`] holds.
pub struct NegotiatedView {
    pub by_initiator: bool,
    pub item: TxItemView,
}

impl View for Negotiated {
    type V = NegotiatedView;

    open spec fn view(&self) -> NegotiatedView {
        NegotiatedView { by_initiator: self.by_initiator, item: self.item@ }
    }
}

/// What `contribution` becomes once it is in the transaction.
pub open spec fn item_of(contribution: ContributionView) -> TxItemView {
    match contribution {
        ContributionView::Input(input) => TxItemView::Input {
            outpoint: input.outpoint,
            value_sats: input.output.value_sats,
        },
        ContributionView::Output(output) => TxItemView::Output { output },
    }
}

/// The output that `item` spends, if it is an input.
pub open spec fn outpoint_of(item: TxItemView) -> Option<OutPoint> {
    match item {
        TxItemView::Input { outpoint, value_sats } => Some(outpoint),
        TxItemView::Output { output } => None,
    }
}

/// An input among `items` spends `outpoint`.
pub open spec fn spends(items: Seq<NegotiatedView>, outpoint: OutPoint) -> bool {
    exists|k: int|
        0 <= k < items.len() && outpoint_of((#[trigger] items[k]).item) == Some(outpoint)
}

/// No two inputs among `items` spend the same output.
pub open spec fn distinct_inputs(items: Seq<NegotiatedView>) -> bool {
    forall|i: int, j: int|
        0 <= i < items.len() && 0 <= j < items.len() && i != j && outpoint_of(
            (#[trigger] items[i]).item,
        ) is Some ==> outpoint_of(items[i].item) != outpoint_of((#[trigger] items[j]).item)
}

/// What the contributions of one party become once they are in the transaction.
pub open spec fn items_by(contributions: Seq<ContributionView>, by_initiator: bool) -> Seq<
    NegotiatedView,
> {
    Seq::new(
        contributions.len(),
        |k: int| NegotiatedView { by_initiator, item: item_of(contributions[k]) },
    )
}

/// The input that spends `outpoint` in a funding transaction, before it is signed.
pub open spec fn funding_input(outpoint: OutPoint) -> TxInView {
    TxInView {
        previous_output: outpoint,
        script_sig: Seq::empty(),
        sequence: FUNDING_SEQUENCE,
        witness: Seq::empty(),
    }
}

/// The inputs among `items`, in order.
pub open spec fn inputs_of(items: Seq<NegotiatedView>) -> Seq<TxInView>
    decreases items.len(),
{
    if items.len() == 0 {
        Seq::empty()
    } else {
        match items.last().item {
            TxItemView::Input { outpoint, value_sats } => inputs_of(items.drop_last()).push(
                funding_input(outpoint),
            ),
            TxItemView::Output { output } => inputs_of(items.drop_last()),
        }
    }
}

/// The outputs among `items`, in order.
pub open spec fn outputs_of(items: Seq<NegotiatedView>) -> Seq<TxOutView>
    decreases items.len(),
{
    if items.len() == 0 {
        Seq::empty()
    } else {
        match items.last().item {
            TxItemView::Input { outpoint, value_sats } => outputs_of(items.drop_last()),
            TxItemView::Output { output } => outputs_of(items.drop_last()).push(output),
        }
    }
}

/// For each input among `items`, in order, whether the initiator put it there.
pub open spec fn owners_of(items: Seq<NegotiatedView>) -> Seq<bool>
    decreases items.len(),
{
    if items.len() == 0 {
        Seq::empty()
    } else {
        match items.last().item {
            TxItemView::Input { outpoint, value_sats } => owners_of(items.drop_last()).push(
                items.last().by_initiator,
            ),
            TxItemView::Output { output } => owners_of(items.drop_last()),
        }
    }
}

/// The sum of the amounts that one party's inputs among `items` spend.
pub open spec fn input_sats(items: Seq<NegotiatedView>, by_initiator: bool) -> int
    decreases items.len(),
{
    if items.len() == 0 {
        0
    } else {
        input_sats(items.drop_last(), by_initiator) + match items.last().item {
            TxItemView::Input { outpoint, value_sats } => if items.last().by_initiator
                == by_initiator {
                value_sats as int
            } else {
                0
            },
            TxItemView::Output { output } => 0,
        }
    }
}

/// The sum of the amounts of one party's outputs among `items`.
pub open spec fn output_sats(items: Seq<NegotiatedView>, by_initiator: bool) -> int
    decreases items.len(),
{
    if items.len() == 0 {
        0
    } else {
        output_sats(items.drop_last(), by_initiator) + match items.last().item {
            TxItemView::Input { outpoint, value_sats } => 0,
            TxItemView::Output { output } => if items.last().by_initiator == by_initiator {
                output.value_sats as int
            } else {
                0
            },
        }
    }
}

/// The transaction that `items` make up, before it is signed.
pub open spec fn funding_tx(items: Seq<NegotiatedView>) -> TransactionView {
    TransactionView {
        version: TX_VERSION,
        lock_time: TX_LOCK_TIME,
        input: inputs_of(items),
        output: outputs_of(items),
    }
}

/// Every input has an owner, and carries no witness yet.
pub proof fn lemma_inputs_of(items: Seq<NegotiatedView>)
    ensures
        inputs_of(items).len() == owners_of(items).len(),
        forall|k: int|
            0 <= k < inputs_of(items).len() ==> (#[trigger] inputs_of(items)[k]).witness
                == Seq::<Seq<u8>>::empty(),
    decreases items.len(),
{
    if items.len() > 0 {
        lemma_inputs_of(items.drop_last());
    }
}

/// The transaction that `items` make up is unsigned.
pub proof fn lemma_funding_tx_is_unsigned(items: Seq<NegotiatedView>)
    ensures
        funding_tx(items).unsigned() == funding_tx(items),
{
    lemma_inputs_of(items);
    assert(funding_tx(items).unsigned().input =~= funding_tx(items).input);
}

/// The amounts of one party's inputs add up to no more than the number of items allows.
pub proof fn lemma_input_sats_bounds(items: Seq<NegotiatedView>, by_initiator: bool)
    ensures
        0 <= input_sats(items, by_initiator) <= items.len() * u64::MAX,
    decreases items.len(),
{
    if items.len() > 0 {
        lemma_input_sats_bounds(items.drop_last(), by_initiator);
        assert(items.len() * u64::MAX == (items.len() - 1) * u64::MAX + u64::MAX)
            by (nonlinear_arith);
    }
}

/// The amounts of two lists of items add up to those of the lists put together.
pub proof fn lemma_sats_of_concat(
    a: Seq<NegotiatedView>,
    b: Seq<NegotiatedView>,
    by_initiator: bool,
)
    ensures
        input_sats(a + b, by_initiator) == input_sats(a, by_initiator) + input_sats(
            b,
            by_initiator,
        ),
        output_sats(a + b, by_initiator) == output_sats(a, by_initiator) + output_sats(
            b,
            by_initiator,
        ),
    decreases b.len(),
{
    if b.len() == 0 {
        assert(a + b =~= a);
    } else {
        lemma_sats_of_concat(a, b.drop_last(), by_initiator);
        assert((a + b).drop_last() =~= a + b.drop_last());
        assert((a + b).last() == b.last());
    }
}

/// Distinct inputs stay distinct when two runs of items trade places.
pub proof fn lemma_distinct_swap(
    x: Seq<NegotiatedView>,
    y: Seq<NegotiatedView>,
    z: Seq<NegotiatedView>,
)
    requires
        distinct_inputs(x + y + z),
    ensures
        distinct_inputs(x + z + y),
{
    let s = x + y + z;
    let t = x + z + y;
    let place = |i: int|
        if i < x.len() {
            i
        } else if i < x.len() + z.len() {
            i + y.len()
        } else {
            i - z.len()
        };
    assert(forall|i: int| 0 <= i < t.len() ==> #[trigger] t[i] == s[place(i)]);
}

/// Distinct inputs stay distinct when an output is added.
pub proof fn lemma_distinct_push_output(s: Seq<NegotiatedView>, last: NegotiatedView)
    requires
        distinct_inputs(s),
        last.item is Output,
    ensures
        distinct_inputs(s.push(last)),
{
    let t = s.push(last);
    assert(forall|i: int| 0 <= i < s.len() ==> #[trigger] t[i] == s[i]);
}

/// Whether an input among `items` spends `outpoint`.
pub fn is_spent(items: &Vec<Negotiated>, outpoint: &OutPoint) -> (r: bool)
    ensures
        r == spends(view_all(items@), *outpoint),
{
    let ghost all = view_all(items@);
    let mut k: usize = 0;
    while k < items.len()
        invariant
            k <= items.len(),
            all == view_all(items@),
            forall|j: int|
                0 <= j < k ==> outpoint_of((#[trigger] all[j]).item) != Some(*outpoint),
        decreases items.len() - k,
    {
        assert(all[k as int] == items[k as int]@);
        match &items[k].item {
            TxItem::Input { outpoint: spent, .. } => {
                if *spent == *outpoint {
                    return true;
                }
            },
            TxItem::Output { .. } => {},
        }
        k = k + 1;
    }
    false
}

/// Builds the transaction that `items` make up.
pub fn build_funding_tx(items: &Vec<Negotiated>) -> (tx: Transaction)
    ensures
        tx@ == funding_tx(view_all(items@)),
{
    let ghost all = view_all(items@);
    let mut input: Vec<TxIn> = Vec::new();
    let mut output: Vec<TxOut> = Vec::new();
    let mut k: usize = 0;
    assert(all.take(0) =~= Seq::<NegotiatedView>::empty());
    while k < items.len()
        invariant
            k <= items.len(),
            all == view_all(items@),
            view_all(input@) == inputs_of(all.take(k as int)),
            view_all(output@) == outputs_of(all.take(k as int)),
        decreases items.len() - k,
    {
        assert(all.take(k + 1).drop_last() =~= all.take(k as int));
        assert(all.take(k + 1).last() == items[k as int]@);
        match &items[k].item {
            TxItem::Input { outpoint, .. } => {
                let next = TxIn {
                    previous_output: *outpoint,
                    script_sig: Vec::new(),
                    sequence: FUNDING_SEQUENCE,
                    witness: Vec::new(),
                };
                assert(next@ == funding_input(*outpoint));
                input.push(next);
            },
            TxItem::Output { output: o } => {
                let next = o.clone();
                output.push(next);
            },
        }
        k = k + 1;
    }
    assert(all.take(k as int) =~= all);
    Transaction { version: TX_VERSION, lock_time: TX_LOCK_TIME, input, output }
}

/// Lists for each input among `items` whether the initiator put it there.
pub fn list_owners(items: &Vec<Negotiated>) -> (r: Vec<bool>)
    ensures
        r@ == owners_of(view_all(items@)),
{
    let ghost all = view_all(items@);
    let mut r: Vec<bool> = Vec::new();
    let mut k: usize = 0;
    assert(all.take(0) =~= Seq::<NegotiatedView>::empty());
    while k < items.len()
        invariant
            k <= items.len(),
            all == view_all(items@),
            r@ == owners_of(all.take(k as int)),
        decreases items.len() - k,
    {
        assert(all.take(k + 1).drop_last() =~= all.take(k as int));
        assert(all.take(k + 1).last() == items[k as int]@);
        match &items[k].item {
            TxItem::Input { .. } => {
                r.push(items[k].by_initiator);
            },
            TxItem::Output { .. } => {},
        }
        k = k + 1;
    }
    assert(all.take(k as int) =~= all);
    r
}

/// Adds up the amounts that one party's inputs among `items` spend.
pub fn add_input_sats(items: &Vec<Negotiated>, by_initiator: bool) -> (r: u128)
    ensures
        r == input_sats(view_all(items@), by_initiator),
{
    let ghost all = view_all(items@);
    let mut sum: u128 = 0;
    let mut k: usize = 0;
    assert(all.take(0) =~= Seq::<NegotiatedView>::empty());
    while k < items.len()
        invariant
            k <= items.len(),
            all == view_all(items@),
            sum == input_sats(all.take(k as int), by_initiator),
        decreases items.len() - k,
    {
        proof {
            let next = all.take(k + 1);
            assert(next.drop_last() =~= all.take(k as int));
            assert(next.last() == items[k as int]@);
            lemma_input_sats_bounds(next, by_initiator);
            assert(next.len() * u64::MAX <= u128::MAX) by (nonlinear_arith)
                requires
                    next.len() <= usize::MAX,
            ;
        }
        match &items[k].item {
            TxItem::Input { value_sats, .. } => {
                if items[k].by_initiator == by_initiator {
                    sum = sum + *value_sats as u128;
                }
            },
            TxItem::Output { .. } => {},
        }
        k = k + 1;
    }
    assert(all.take(k as int) =~= all);
    sum
}

} // verus!
