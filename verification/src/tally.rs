//! Counting in sequences.

use vstd::prelude::*;

verus! {

/// How many elements of `list` are such.
pub open spec fn tally<T>(list: Seq<T>, such: spec_fn(T) -> bool) -> nat
    decreases list.len(),
{
    if list.len() == 0 {
        0
    } else {
        tally(list.drop_last(), such) + if such(list.last()) { 1nat } else { 0nat }
    }
}

/// One more element counts if it is such.
pub proof fn lemma_tally_push<T>(list: Seq<T>, such: spec_fn(T) -> bool, element: T)
    ensures
        tally(list.push(element), such) == tally(list, such) + if such(element) {
            1nat
        } else {
            0nat
        },
{
    assert(list.push(element).drop_last() =~= list);
}

/// One element less counts less if it was such.
pub proof fn lemma_tally_remove<T>(list: Seq<T>, such: spec_fn(T) -> bool, i: int)
    requires
        0 <= i < list.len(),
    ensures
        tally(list, such) == tally(list.remove(i), such) + if such(list[i]) { 1nat } else { 0nat },
    decreases list.len(),
{
    let last = list.len() - 1;
    if i == last {
        assert(list.remove(i) =~= list.drop_last());
    } else {
        assert(list.remove(i).drop_last() =~= list.drop_last().remove(i));
        assert(list.remove(i).last() == list.last());
        lemma_tally_remove(list.drop_last(), such, i);
    }
}

/// No more elements are such than there are elements.
pub proof fn lemma_tally_bound<T>(list: Seq<T>, such: spec_fn(T) -> bool)
    ensures
        tally(list, such) <= list.len(),
    decreases list.len(),
{
    if list.len() > 0 {
        lemma_tally_bound(list.drop_last(), such);
    }
}

/// What is such is counted.
pub proof fn lemma_tally_positive<T>(list: Seq<T>, such: spec_fn(T) -> bool, i: int)
    requires
        0 <= i < list.len(),
        such(list[i]),
    ensures
        tally(list, such) > 0,
    decreases list.len(),
{
    if i < list.len() - 1 {
        lemma_tally_positive(list.drop_last(), such, i);
    }
}

/// Where nothing is such, nothing is counted.
pub proof fn lemma_tally_zero<T>(list: Seq<T>, such: spec_fn(T) -> bool)
    requires
        forall|i: int| 0 <= i < list.len() ==> !such(#[trigger] list[i]),
    ensures
        tally(list, such) == 0,
    decreases list.len(),
{
    if list.len() > 0 {
        let rest = list.drop_last();
        assert forall|i: int| 0 <= i < rest.len() implies !such(#[trigger] rest[i]) by {
            assert(rest[i] == list[i]);
        }
        lemma_tally_zero(rest, such);
    }
}

/// Where something is counted, something is such.
pub proof fn lemma_tally_found<T>(list: Seq<T>, such: spec_fn(T) -> bool) -> (i: int)
    requires
        tally(list, such) > 0,
    ensures
        0 <= i < list.len(),
        such(list[i]),
    decreases list.len(),
{
    if such(list.last()) {
        list.len() - 1
    } else {
        lemma_tally_found(list.drop_last(), such)
    }
}

} // verus!
