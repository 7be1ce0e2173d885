//! Facts about filtered sequences.
use vstd::prelude::*;

verus! {

/// Filtering one element more.
pub proof fn lemma_filter_step<A>(list: Seq<A>, pred: spec_fn(A) -> bool, i: int)
    requires
        0 <= i < list.len(),
    ensures
        list.take(i + 1).filter(pred) == if pred(list[i]) {
            list.take(i).filter(pred).push(list[i])
        } else {
            list.take(i).filter(pred)
        },
{
    reveal(Seq::filter);
    assert(list.take(i + 1).drop_last() =~= list.take(i));
}

/// A filter that no element passes leaves nothing.
pub proof fn lemma_filter_none<A>(list: Seq<A>, pred: spec_fn(A) -> bool)
    requires
        forall|i: int| 0 <= i < list.len() ==> !pred(#[trigger] list[i]),
    ensures
        list.filter(pred) == Seq::<A>::empty(),
    decreases list.len(),
{
    reveal(Seq::filter);
    if list.len() > 0 {
        assert forall|i: int| 0 <= i < list.len() - 1 implies !pred(
            #[trigger] list.drop_last()[i],
        ) by {
            assert(list.drop_last()[i] == list[i]);
        }
        lemma_filter_none(list.drop_last(), pred);
    }
}

/// Appending an element adds it to what a sequence contains.
pub proof fn lemma_push_contains<A>(list: Seq<A>, last: A, x: A)
    ensures
        list.push(last).contains(x) <==> list.contains(x) || x == last,
{
    if list.contains(x) {
        let i = choose|i: int| 0 <= i < list.len() && list[i] == x;
        assert(list.push(last)[i] == x);
    }
    if x == last {
        assert(list.push(last)[list.len() as int] == x);
    }
}

/// Filtering keeps exactly the elements that pass.
pub proof fn lemma_filter_contains<A>(list: Seq<A>, pred: spec_fn(A) -> bool, x: A)
    ensures
        list.filter(pred).contains(x) <==> list.contains(x) && pred(x),
    decreases list.len(),
{
    reveal(Seq::filter);
    if list.len() > 0 {
        let rest = list.drop_last();
        lemma_filter_contains(rest, pred, x);
        assert(list =~= rest.push(list.last()));
        lemma_push_contains(rest, list.last(), x);
        lemma_push_contains(rest.filter(pred), list.last(), x);
    }
}

} // verus!
