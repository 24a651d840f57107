//! What stays of a sequence when some of its items are taken out: the items
//! that stay keep their order, and each of them was there before.

use vstd::prelude::*;

verus! {

/// Where in `s` the item stood that is at position `i` in `s.filter(keep)`.
pub open spec fn origin<T>(s: Seq<T>, keep: spec_fn(T) -> bool, i: int) -> int
    decreases s.len(),
{
    if s.len() == 0 {
        0
    } else if keep(s.last()) && i == s.drop_last().filter(keep).len() {
        s.len() - 1
    } else {
        origin(s.drop_last(), keep, i)
    }
}

/// Each item that stays stood in the sequence before, and items that stay
/// stand in the order in which they stood before.
pub proof fn lemma_filter_origin<T>(s: Seq<T>, keep: spec_fn(T) -> bool)
    ensures
        forall|i: int|
            0 <= i < s.filter(keep).len() ==> 0 <= #[trigger] origin(s, keep, i) < s.len()
                && s[origin(s, keep, i)] == s.filter(keep)[i],
        forall|i: int, j: int|
            0 <= i < j < s.filter(keep).len() ==> #[trigger] origin(s, keep, i) < #[trigger] origin(
                s,
                keep,
                j,
            ),
    decreases s.len(),
{
    reveal(Seq::filter);
    if s.len() > 0 {
        let head = s.drop_last();
        let fh = head.filter(keep);
        let f = s.filter(keep);
        lemma_filter_origin(head, keep);
        assert forall|i: int| 0 <= i < f.len() implies 0 <= #[trigger] origin(s, keep, i) < s.len()
            && s[origin(s, keep, i)] == f[i] by {
            if i < fh.len() {
                assert(origin(s, keep, i) == origin(head, keep, i));
                assert(head[origin(head, keep, i)] == fh[i]);
            }
        }
        assert forall|i: int, j: int| 0 <= i < j < f.len() implies #[trigger] origin(s, keep, i)
            < #[trigger] origin(s, keep, j) by {
            assert(origin(s, keep, i) == origin(head, keep, i));
            assert(0 <= origin(head, keep, i) < head.len());
            if j < fh.len() {
                assert(origin(s, keep, j) == origin(head, keep, j));
            }
        }
    }
}

/// An item stays exactly if it stood in the sequence and is to be kept.
pub proof fn lemma_filter_members<T>(s: Seq<T>, keep: spec_fn(T) -> bool)
    ensures
        forall|x: T| #[trigger] s.filter(keep).contains(x) <==> (s.contains(x) && keep(x)),
{
    let f = s.filter(keep);
    lemma_filter_origin(s, keep);
    assert forall|x: T| #[trigger] f.contains(x) <==> (s.contains(x) && keep(x)) by {
        if f.contains(x) {
            let i = choose|i: int| 0 <= i < f.len() && f[i] == x;
            s.lemma_filter_pred(keep, i);
            assert(s[origin(s, keep, i)] == x);
        }
        if s.contains(x) && keep(x) {
            let k = choose|k: int| 0 <= k < s.len() && s[k] == x;
            s.lemma_filter_contains(keep, k);
        }
    }
}

/// Nothing stays of a sequence in which nothing is to be kept.
pub proof fn lemma_filter_none<T>(s: Seq<T>, keep: spec_fn(T) -> bool)
    requires
        forall|i: int| 0 <= i < s.len() ==> !keep(#[trigger] s[i]),
    ensures
        s.filter(keep) == Seq::<T>::empty(),
    decreases s.len(),
{
    reveal(Seq::filter);
    if s.len() > 0 {
        lemma_filter_none(s.drop_last(), keep);
    }
}

} // verus!
