//! Laws of witnesses: which of them goes where.

use vstd::prelude::*;
use crate::tx::{TransactionView, TxInView};
use crate::witness::{count_owned, lemma_rank_in_range, lemma_witnesses_of, with_witnesses};
use crate::witness::witnesses_of;

verus! {

/// Tells the inputs of one party.
pub open spec fn tells_owner(who: bool) -> spec_fn(bool) -> bool {
    |owner: bool| owner == who
}

/// How many of the first `k` inputs belong to `who`.
pub open spec fn rank(owners: Seq<bool>, who: bool, k: int) -> int {
    owners.take(k).filter(tells_owner(who)).len() as int
}

/// The inputs that belong to a party are counted one by one.
pub proof fn law_inputs_are_counted_one_by_one(owners: Seq<bool>, who: bool)
    ensures
        count_owned(owners, who) == owners.filter(tells_owner(who)).len(),
        count_owned(owners, who) == rank(owners, who, owners.len() as int),
    decreases owners.len(),
{
    reveal(Seq::filter);
    assert(owners.take(owners.len() as int) =~= owners);
    if owners.len() > 0 {
        law_inputs_are_counted_one_by_one(owners.drop_last(), who);
    }
}

/// Witnesses of a party are put on its inputs in order: an input that is preceded by `r` inputs of
/// the same party gets the witness at place `r`. The other party's inputs stay as they are, and
/// nothing but witnesses changes.
pub proof fn law_witnesses_are_put_in_order(
    inputs: Seq<TxInView>,
    owners: Seq<bool>,
    who: bool,
    witnesses: Seq<Seq<Seq<u8>>>,
)
    requires
        inputs.len() == owners.len(),
    ensures
        ({
            let put = with_witnesses(inputs, owners, who, witnesses);
            &&& count_owned(owners, who) == rank(owners, who, owners.len() as int)
            &&& put.len() == inputs.len()
            &&& forall|k: int|
                0 <= k < inputs.len() ==> {
                    &&& (#[trigger] put[k]).previous_output == inputs[k].previous_output
                    &&& put[k].script_sig == inputs[k].script_sig
                    &&& put[k].sequence == inputs[k].sequence
                    &&& put[k].witness == if owners[k] == who {
                        witnesses[rank(owners, who, k)]
                    } else {
                        inputs[k].witness
                    }
                }
        }),
{
    let put = with_witnesses(inputs, owners, who, witnesses);
    law_inputs_are_counted_one_by_one(owners, who);
    assert forall|k: int| 0 <= k < inputs.len() implies {
        &&& (#[trigger] put[k]).previous_output == inputs[k].previous_output
        &&& put[k].script_sig == inputs[k].script_sig
        &&& put[k].sequence == inputs[k].sequence
        &&& put[k].witness == if owners[k] == who {
            witnesses[rank(owners, who, k)]
        } else {
            inputs[k].witness
        }
    } by {
        law_inputs_are_counted_one_by_one(owners.take(k), who);
    }
}

/// The witnesses of a party are collected in order: the one of an input that is preceded by `r`
/// inputs of the same party stands at place `r`, and there are no others.
pub proof fn law_witnesses_are_collected_in_order(
    inputs: Seq<TxInView>,
    owners: Seq<bool>,
    who: bool,
)
    requires
        inputs.len() == owners.len(),
    ensures
        witnesses_of(inputs, owners, who).len() == rank(owners, who, owners.len() as int),
        forall|k: int|
            0 <= k < inputs.len() && owners[k] == who ==> witnesses_of(inputs, owners, who)[rank(
                owners,
                who,
                k,
            )] == (#[trigger] inputs[k]).witness,
{
    law_inputs_are_counted_one_by_one(owners, who);
    lemma_witnesses_of(inputs, owners, who);
    assert forall|k: int| 0 <= k < inputs.len() && owners[k] == who implies witnesses_of(
        inputs,
        owners,
        who,
    )[rank(owners, who, k)] == (#[trigger] inputs[k]).witness by {
        law_inputs_are_counted_one_by_one(owners.take(k), who);
        lemma_rank_in_range(owners, who, k);
    }
}

/// Two transactions are the same without their witnesses exactly if everything but the witnesses
/// is the same: version, lock time, outputs, and of each input what it spends, its signature script
/// and its sequence number.
pub proof fn law_witnesses_alone_do_not_count(a: TransactionView, b: TransactionView)
    ensures
        a.unsigned() == b.unsigned() <==> {
            &&& a.version == b.version
            &&& a.lock_time == b.lock_time
            &&& a.output == b.output
            &&& a.input.len() == b.input.len()
            &&& forall|k: int|
                0 <= k < a.input.len() ==> {
                    &&& (#[trigger] a.input[k]).previous_output == b.input[k].previous_output
                    &&& a.input[k].script_sig == b.input[k].script_sig
                    &&& a.input[k].sequence == b.input[k].sequence
                }
        },
{
    let x = a.unsigned();
    let y = b.unsigned();
    assert(x.input.len() == a.input.len() && y.input.len() == b.input.len());
    if x == y {
        assert forall|k: int| 0 <= k < a.input.len() implies {
            &&& (#[trigger] a.input[k]).previous_output == b.input[k].previous_output
            &&& a.input[k].script_sig == b.input[k].script_sig
            &&& a.input[k].sequence == b.input[k].sequence
        } by {
            assert(x.input[k] == y.input[k]);
        }
    }
    if a.version == b.version && a.lock_time == b.lock_time && a.output == b.output && a.input.len()
        == b.input.len() && forall|k: int|
        0 <= k < a.input.len() ==> {
            &&& (#[trigger] a.input[k]).previous_output == b.input[k].previous_output
            &&& a.input[k].script_sig == b.input[k].script_sig
            &&& a.input[k].sequence == b.input[k].sequence
        } {
        assert(x.input =~= y.input) by {
            assert forall|k: int| 0 <= k < x.input.len() implies x.input[k] == y.input[k] by {
                assert(a.input[k].previous_output == b.input[k].previous_output);
            }
        }
        assert(x == y);
    }
}

} // verus!
