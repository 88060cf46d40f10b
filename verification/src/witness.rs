//! Witnesses of a transaction whose inputs belong to two parties.
//!
//! `owners` says for each input which of the two parties it belongs to.

use vstd::prelude::*;
use crate::tx::{copy_bytes, copy_stack, TxIn, TxInView};
use crate::views::{group_view_all, view_all};

verus! {

broadcast use group_view_all;

/// The witness of one input: a stack of byte strings.
pub type Witness = Vec<Vec<u8>>;

/// The views of a list of witnesses.
pub open spec fn witness_views(witnesses: Seq<Witness>) -> Seq<Seq<Seq<u8>>> {
    Seq::new(witnesses.len(), |k: int| view_all(witnesses[k]@))
}

/// How many inputs belong to `who`.
pub open spec fn count_owned(owners: Seq<bool>, who: bool) -> nat
    decreases owners.len(),
{
    if owners.len() == 0 {
        0
    } else {
        count_owned(owners.drop_last(), who) + if owners.last() == who {
            1nat
        } else {
            0nat
        }
    }
}

/// The witnesses of the inputs that belong to `who`, in the order of the inputs.
pub open spec fn witnesses_of(inputs: Seq<TxInView>, owners: Seq<bool>, who: bool) -> Seq<
    Seq<Seq<u8>>,
>
    decreases inputs.len(),
{
    if inputs.len() == 0 {
        Seq::empty()
    } else {
        let rest = witnesses_of(inputs.drop_last(), owners.drop_last(), who);
        if owners.last() == who {
            rest.push(inputs.last().witness)
        } else {
            rest
        }
    }
}

/// The inputs with `witnesses` put on those that belong to `who`, in order, and the others
/// as they are.
pub open spec fn with_witnesses(
    inputs: Seq<TxInView>,
    owners: Seq<bool>,
    who: bool,
    witnesses: Seq<Seq<Seq<u8>>>,
) -> Seq<TxInView> {
    Seq::new(
        inputs.len(),
        |k: int|
            if owners[k] == who {
                TxInView {
                    witness: witnesses[count_owned(owners.take(k), who) as int],
                    ..inputs[k]
                }
            } else {
                inputs[k]
            },
    )
}

/// Every input that belongs to `who` has a witness.
pub open spec fn all_signed(inputs: Seq<TxInView>, owners: Seq<bool>, who: bool) -> bool {
    forall|k: int|
        0 <= k < inputs.len() && owners[k] == who ==> (#[trigger] inputs[k]).witness.len() > 0
}

/// Inputs counted up to a position never outnumber those counted further on.
pub proof fn lemma_count_owned_monotonic(owners: Seq<bool>, who: bool, i: int, j: int)
    requires
        0 <= i <= j <= owners.len(),
    ensures
        count_owned(owners.take(i), who) <= count_owned(owners.take(j), who),
    decreases j - i,
{
    if i < j {
        lemma_count_owned_monotonic(owners, who, i, j - 1);
        assert(owners.take(j).drop_last() =~= owners.take(j - 1));
    }
}

/// An input of `who` is preceded by fewer inputs of `who` than there are in all.
pub proof fn lemma_rank_in_range(owners: Seq<bool>, who: bool, k: int)
    requires
        0 <= k < owners.len(),
        owners[k] == who,
    ensures
        count_owned(owners.take(k), who) < count_owned(owners, who),
{
    assert(owners.take(k + 1).drop_last() =~= owners.take(k));
    lemma_count_owned_monotonic(owners, who, k + 1, owners.len() as int);
    assert(owners.take(owners.len() as int) =~= owners);
}

/// Each party's witness stands at the place that its input has among the party's inputs.
pub proof fn lemma_witnesses_of(inputs: Seq<TxInView>, owners: Seq<bool>, who: bool)
    requires
        inputs.len() == owners.len(),
    ensures
        witnesses_of(inputs, owners, who).len() == count_owned(owners, who),
        forall|k: int|
            0 <= k < inputs.len() && owners[k] == who ==> witnesses_of(
                inputs,
                owners,
                who,
            )[count_owned(owners.take(k), who) as int] == (#[trigger] inputs[k]).witness,
    decreases inputs.len(),
{
    if inputs.len() > 0 {
        let i = inputs.drop_last();
        let o = owners.drop_last();
        lemma_witnesses_of(i, o, who);
        assert forall|k: int| 0 <= k < inputs.len() && owners[k] == who implies witnesses_of(
            inputs,
            owners,
            who,
        )[count_owned(owners.take(k), who) as int] == (#[trigger] inputs[k]).witness by {
            if k == inputs.len() - 1 {
                assert(owners.take(k) =~= o);
            } else {
                assert(inputs[k] == i[k] && owners[k] == o[k]);
                assert(owners.take(k) =~= o.take(k));
                lemma_rank_in_range(o, who, k);
            }
        }
    }
}

/// Witnesses put on a party's inputs are read back as they were put.
pub proof fn lemma_read_back_witnesses(
    inputs: Seq<TxInView>,
    owners: Seq<bool>,
    who: bool,
    witnesses: Seq<Seq<Seq<u8>>>,
)
    requires
        inputs.len() == owners.len(),
        witnesses.len() == count_owned(owners, who),
    ensures
        witnesses_of(with_witnesses(inputs, owners, who, witnesses), owners, who) == witnesses,
    decreases inputs.len(),
{
    let put = with_witnesses(inputs, owners, who, witnesses);
    if inputs.len() == 0 {
        assert(witnesses_of(put, owners, who) =~= witnesses);
    } else {
        let i = inputs.drop_last();
        let o = owners.drop_last();
        let w = if owners.last() == who {
            witnesses.drop_last()
        } else {
            witnesses
        };
        lemma_read_back_witnesses(i, o, who, w);
        assert(owners.take(inputs.len() - 1) =~= o);
        assert(put.drop_last() =~= with_witnesses(i, o, who, w)) by {
            assert forall|k: int| 0 <= k < i.len() implies put[k] == with_witnesses(
                i,
                o,
                who,
                w,
            )[k] by {
                assert(owners.take(k) =~= o.take(k));
                if owners[k] == who {
                    assert(o[k] == who);
                    lemma_rank_in_range(o, who, k);
                }
            }
        }
        if owners.last() == who {
            assert(put.last().witness == witnesses.last());
            assert(w.push(witnesses.last()) =~= witnesses);
        }
    }
}

/// Collects the witnesses of the inputs that belong to `who`.
pub fn collect_witnesses(inputs: &Vec<TxIn>, owners: &Vec<bool>, who: bool) -> (r: Vec<Witness>)
    requires
        inputs.len() == owners.len(),
    ensures
        witness_views(r@) == witnesses_of(view_all(inputs@), owners@, who),
{
    let ghost all = view_all(inputs@);
    let mut r: Vec<Witness> = Vec::new();
    let mut k: usize = 0;
    assert(witness_views(r@) =~= Seq::empty());
    while k < inputs.len()
        invariant
            k <= inputs.len(),
            inputs.len() == owners.len(),
            all == view_all(inputs@),
            witness_views(r@) == witnesses_of(all.take(k as int), owners@.take(k as int), who),
        decreases inputs.len() - k,
    {
        let ghost before = r@;
        if owners[k] == who {
            r.push(copy_stack(&inputs[k].witness));
            assert(witness_views(r@) =~= witness_views(before).push(all[k as int].witness));
        }
        assert(all.take(k + 1).drop_last() =~= all.take(k as int));
        assert(owners@.take(k + 1).drop_last() =~= owners@.take(k as int));
        k = k + 1;
    }
    assert(all.take(k as int) =~= all);
    assert(owners@.take(k as int) =~= owners@);
    r
}

/// Counts the inputs that belong to `who`.
pub fn number_owned(owners: &Vec<bool>, who: bool) -> (r: usize)
    ensures
        r == count_owned(owners@, who),
{
    let mut n: usize = 0;
    let mut k: usize = 0;
    assert(owners@.take(0) =~= Seq::<bool>::empty());
    while k < owners.len()
        invariant
            k <= owners.len(),
            n <= k,
            n == count_owned(owners@.take(k as int), who),
        decreases owners.len() - k,
    {
        assert(owners@.take(k + 1).drop_last() =~= owners@.take(k as int));
        if owners[k] == who {
            n = n + 1;
        }
        k = k + 1;
    }
    assert(owners@.take(k as int) =~= owners@);
    n
}

/// Whether every input that belongs to `who` has a witness.
pub fn is_all_signed(inputs: &Vec<TxIn>, owners: &Vec<bool>, who: bool) -> (r: bool)
    requires
        inputs.len() == owners.len(),
    ensures
        r == all_signed(view_all(inputs@), owners@, who),
{
    let ghost all = view_all(inputs@);
    let mut k: usize = 0;
    while k < inputs.len()
        invariant
            k <= inputs.len(),
            inputs.len() == owners.len(),
            all == view_all(inputs@),
            forall|j: int| 0 <= j < k && owners[j] == who ==> (#[trigger] all[j]).witness.len() > 0,
        decreases inputs.len() - k,
    {
        assert(all[k as int].witness.len() == inputs[k as int].witness.len());
        if owners[k] == who && inputs[k].witness.len() == 0 {
            return false;
        }
        k = k + 1;
    }
    true
}

/// Puts `witnesses` on the inputs that belong to `who`.
pub fn put_witnesses(
    inputs: &Vec<TxIn>,
    owners: &Vec<bool>,
    who: bool,
    witnesses: &Vec<Witness>,
) -> (r: Vec<TxIn>)
    requires
        inputs.len() == owners.len(),
        witnesses.len() == count_owned(owners@, who),
    ensures
        view_all(r@) == with_witnesses(
            view_all(inputs@),
            owners@,
            who,
            witness_views(witnesses@),
        ),
{
    let ghost all = view_all(inputs@);
    let ghost put = with_witnesses(all, owners@, who, witness_views(witnesses@));
    let mut r: Vec<TxIn> = Vec::new();
    let mut rank: usize = 0;
    let mut k: usize = 0;
    assert(owners@.take(0) =~= Seq::<bool>::empty());
    assert(view_all(r@) =~= put.take(0));
    while k < inputs.len()
        invariant
            k <= inputs.len(),
            rank <= k,
            inputs.len() == owners.len(),
            witnesses.len() == count_owned(owners@, who),
            all == view_all(inputs@),
            put == with_witnesses(all, owners@, who, witness_views(witnesses@)),
            rank == count_owned(owners@.take(k as int), who),
            view_all(r@) == put.take(k as int),
        decreases inputs.len() - k,
    {
        let ghost before = r@;
        assert(owners@.take(k + 1).drop_last() =~= owners@.take(k as int));
        if owners[k] == who {
            proof {
                lemma_rank_in_range(owners@, who, k as int);
            }
            r.push(
                TxIn {
                    previous_output: inputs[k].previous_output,
                    script_sig: copy_bytes(&inputs[k].script_sig),
                    sequence: inputs[k].sequence,
                    witness: copy_stack(&witnesses[rank]),
                },
            );
            rank = rank + 1;
        } else {
            let same = inputs[k].clone();
            r.push(same);
        }
        assert(view_all(r@) =~= put.take(k + 1));
        k = k + 1;
    }
    assert(put.take(k as int) =~= put);
    r
}

} // verus!
