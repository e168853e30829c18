use vstd::prelude::*;
use crate::filter::without;
use vstd::multiset::Multiset;

verus! {

broadcast use vstd::seq_lib::group_to_multiset_ensures;

/// `a` is `b` with some elements left out: an increasing choice of positions
/// in `b` holds the elements of `a`, in order.
pub open spec fn is_subsequence(a: Seq<u64>, b: Seq<u64>) -> bool {
    exists|idx: Seq<int>| is_embedding(idx, a, b)
}

/// `idx` picks the positions of `b`, in increasing order, at which the
/// elements of `a` stand.
pub open spec fn is_embedding(idx: Seq<int>, a: Seq<u64>, b: Seq<u64>) -> bool {
    &&& idx.len() == a.len()
    &&& forall|j: int| 0 <= j < idx.len() ==> 0 <= #[trigger] idx[j] < b.len()
    &&& forall|j: int| 0 <= j < idx.len() ==> b[#[trigger] idx[j]] == a[j]
    &&& forall|j: int, l: int| 0 <= j < l < idx.len() ==> #[trigger] idx[j] < #[trigger] idx[l]
}

/// The result holds no element equal to the target, and each of its elements
/// stands in the input.
pub proof fn lemma_without_excludes_target(s: Seq<u64>, id: u64)
    ensures
        forall|i: int| 0 <= i < without(s, id).len() ==> #[trigger] without(s, id)[i] != id,
        forall|i: int| 0 <= i < without(s, id).len() ==> s.contains(#[trigger] without(s, id)[i]),
    decreases s.len(),
{
    if s.len() > 0 {
        lemma_without_excludes_target(s.drop_last(), id);
        let rest = without(s.drop_last(), id);
        assert forall|i: int| 0 <= i < without(s, id).len() implies s.contains(
            #[trigger] without(s, id)[i],
        ) by {
            if i < rest.len() {
                let k = choose|k: int| 0 <= k < s.drop_last().len() && s.drop_last()[k] == rest[i];
                assert(s[k] == without(s, id)[i]);
            } else {
                assert(s[s.len() - 1] == without(s, id)[i]);
            }
        }
    }
}

/// The result holds the elements of the input, each as many times as there,
/// but for the target, which it holds no time.
pub proof fn lemma_without_multiset(s: Seq<u64>, id: u64)
    ensures
        without(s, id).to_multiset() =~= s.to_multiset().update(id, 0),
    decreases s.len(),
{
    broadcast use {
        vstd::multiset::group_multiset_axioms,
        vstd::multiset::lemma_update_same,
        vstd::multiset::lemma_update_different,
        vstd::multiset::lemma_insert_increases_count_by_1,
        vstd::multiset::lemma_insert_other_elements_unchanged,
    };

    if s.len() == 0 {
        assert(s.to_multiset() =~= Multiset::empty());
        assert(without(s, id).to_multiset() =~= Multiset::empty());
    } else {
        let init = s.drop_last();
        let x = s.last();
        lemma_without_multiset(init, id);
        assert(s =~= init.push(x));
        let whole = s.to_multiset();
        let part = init.to_multiset();
        let rest = without(init, id).to_multiset();
        assert(whole =~= part.insert(x));
        if x != id {
            assert(without(s, id).to_multiset() =~= rest.insert(x));
        }
        assert forall|y: u64| #[trigger] without(s, id).to_multiset().count(y) == whole.update(
            id,
            0,
        ).count(y) by {}
    }
}

/// The result keeps the order of the input: it is a subsequence of it.
pub proof fn lemma_without_keeps_order(s: Seq<u64>, id: u64)
    ensures
        is_subsequence(without(s, id), s),
    decreases s.len(),
{
    if s.len() == 0 {
        assert(is_embedding(Seq::empty(), without(s, id), s));
    } else {
        let init = s.drop_last();
        lemma_without_keeps_order(init, id);
        let idx = choose|idx: Seq<int>| is_embedding(idx, without(init, id), init);
        if s.last() != id {
            let idx2 = idx.push(s.len() - 1);
            assert(is_embedding(idx2, without(s, id), s));
        } else {
            assert(is_embedding(idx, without(s, id), s));
        }
    }
}

/// Filtering twice by the same target gives what filtering once gives.
pub proof fn lemma_without_idempotent(s: Seq<u64>, id: u64)
    ensures
        without(without(s, id), id) == without(s, id),
{
    lemma_without_excludes_target(s, id);
    lemma_without_unchanged_when_absent(without(s, id), id);
}

/// The empty input gives the empty result.
pub proof fn lemma_without_empty(id: u64)
    ensures
        without(Seq::empty(), id) == Seq::<u64>::empty(),
{
}

/// An input that holds no element equal to the target comes back unchanged.
pub proof fn lemma_without_unchanged_when_absent(s: Seq<u64>, id: u64)
    requires
        forall|i: int| 0 <= i < s.len() ==> #[trigger] s[i] != id,
    ensures
        without(s, id) == s,
    decreases s.len(),
{
    if s.len() > 0 {
        lemma_without_unchanged_when_absent(s.drop_last(), id);
        assert(s.drop_last().push(s.last()) =~= s);
    }
}

/// An input whose every element equals the target gives the empty result.
pub proof fn lemma_without_empty_when_all_target(s: Seq<u64>, id: u64)
    requires
        forall|i: int| 0 <= i < s.len() ==> #[trigger] s[i] == id,
    ensures
        without(s, id) == Seq::<u64>::empty(),
    decreases s.len(),
{
    if s.len() > 0 {
        lemma_without_empty_when_all_target(s.drop_last(), id);
    }
}

} // verus!
