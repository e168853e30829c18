use vstd::prelude::*;

verus! {

/// The elements of `s` that differ from `id`, in their order in `s`.
pub open spec fn without(s: Seq<u64>, id: u64) -> Seq<u64>
    decreases s.len(),
{
    if s.len() == 0 {
        s
    } else {
        let rest = without(s.drop_last(), id);
        if s.last() != id {
            rest.push(s.last())
        } else {
            rest
        }
    }
}

/// One step of the filter: taking one more element of `s` into account.
pub proof fn lemma_without_take_step(s: Seq<u64>, id: u64, i: int)
    requires
        0 <= i < s.len(),
    ensures
        without(s.take(i + 1), id) == if s[i] != id {
            without(s.take(i), id).push(s[i])
        } else {
            without(s.take(i), id)
        },
{
    assert(s.take(i + 1).drop_last() =~= s.take(i));
}

/// Copies the ids that differ from `id` into an explicitly pre-sized vector.
pub fn foo(ids: &Vec<u64>, id: u64) -> (r: Vec<u64>)
    ensures
        r@ == without(ids@, id),
{
    let mut elements_to_be_kept: Vec<u64> = Vec::with_capacity(ids.len());
    for element in it: ids.iter()
        invariant
            it.seq() == ids@.map_values(|e: u64| &e),
            elements_to_be_kept@ == without(ids@.take(it.index() as int), id),
    {
        proof {
            lemma_without_take_step(ids@, id, it.index() as int);
        }
        if *element != id {
            elements_to_be_kept.push(*element);
        }
    }
    assert(ids@.take(ids@.len() as int) =~= ids@);
    elements_to_be_kept
}

/// Collects the ids that differ from `id` into a vector that starts empty and
/// grows as needed.
pub fn idiomatic(ids: &Vec<u64>, id: u64) -> (r: Vec<u64>)
    ensures
        r@ == without(ids@, id),
{
    let mut result: Vec<u64> = Vec::new();
    let mut i: usize = 0;
    while i < ids.len()
        invariant
            i <= ids.len(),
            result@ == without(ids@.take(i as int), id),
        decreases ids.len() - i,
    {
        proof {
            lemma_without_take_step(ids@, id, i as int);
        }
        let element: u64 = ids[i];
        if element != id {
            result.push(element);
        }
        i = i + 1;
    }
    assert(ids@.take(ids@.len() as int) =~= ids@);
    result
}

/// Collects the ids that differ from `id` into a vector reserved up front
/// for the whole input.
pub fn idiomatic_with_reservation(ids: &Vec<u64>, id: u64) -> (r: Vec<u64>)
    ensures
        r@ == without(ids@, id),
{
    let mut result: Vec<u64> = Vec::with_capacity(ids.len());
    for element in it: ids.iter()
        invariant
            it.seq() == ids@.map_values(|e: u64| &e),
            result@ == without(ids@.take(it.index() as int), id),
    {
        proof {
            lemma_without_take_step(ids@, id, it.index() as int);
        }
        if element != &id {
            result.push(*element);
        }
    }
    assert(ids@.take(ids@.len() as int) =~= ids@);
    result
}

/// Removes every occurrence of `id` from `ids` itself, shifting the later
/// elements left at each removal, and hands the same vector back.
pub fn in_place(ids: Vec<u64>, id: u64) -> (r: Vec<u64>)
    ensures
        r@ == without(ids@, id),
{
    let ghost orig = ids@;
    let mut ids = ids;
    let ghost mut k: int = 0;
    let mut i: usize = 0;
    while i < ids.len()
        invariant
            0 <= k <= orig.len(),
            ids@ == without(orig.take(k), id) + orig.skip(k),
            i == without(orig.take(k), id).len(),
        decreases ids.len() - i,
    {
        proof {
            lemma_without_take_step(orig, id, k);
            assert(orig.skip(k)[0] == orig[k]);
            assert(orig.skip(k).drop_first() =~= orig.skip(k + 1));
        }
        if ids[i] == id {
            ids.remove(i);
            proof {
                assert(ids@ =~= without(orig.take(k + 1), id) + orig.skip(k + 1));
            }
        } else {
            i = i + 1;
            proof {
                assert(ids@ =~= without(orig.take(k + 1), id) + orig.skip(k + 1));
            }
        }
        proof {
            k = k + 1;
        }
    }
    proof {
        assert(orig.skip(k).len() == 0);
        assert(orig.take(k) =~= orig);
        assert(ids@ =~= without(orig, id));
    }
    ids
}

} // verus!
