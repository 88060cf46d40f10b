//! Element-wise views of sequences.

use vstd::prelude::*;

verus! {

/// The views of the elements of `s`, in order.
pub open spec fn view_all<T: View>(s: Seq<T>) -> Seq<T::V> {
    Seq::new(s.len(), |k: int| s[k].view())
}

pub broadcast proof fn lemma_view_all_push<T: View>(s: Seq<T>, x: T)
    ensures
        #[trigger] view_all(s.push(x)) == view_all(s).push(x.view()),
{
    assert(view_all(s.push(x)) =~= view_all(s).push(x.view()));
}

pub broadcast proof fn lemma_view_all_update<T: View>(s: Seq<T>, k: int, x: T)
    requires
        0 <= k < s.len(),
    ensures
        #[trigger] view_all(s.update(k, x)) == view_all(s).update(k, x.view()),
{
    assert(view_all(s.update(k, x)) =~= view_all(s).update(k, x.view()));
}

pub broadcast proof fn lemma_view_all_remove<T: View>(s: Seq<T>, k: int)
    requires
        0 <= k < s.len(),
    ensures
        #[trigger] view_all(s.remove(k)) == view_all(s).remove(k),
{
    assert(view_all(s.remove(k)) =~= view_all(s).remove(k));
}

pub broadcast proof fn lemma_view_all_empty<T: View>(s: Seq<T>)
    requires
        s.len() == 0,
    ensures
        #[trigger] view_all(s) == Seq::<T::V>::empty(),
{
    assert(view_all(s) =~= Seq::<T::V>::empty());
}

pub broadcast group group_view_all {
    lemma_view_all_push,
    lemma_view_all_update,
    lemma_view_all_remove,
    lemma_view_all_empty,
}

} // verus!
