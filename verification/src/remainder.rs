//! Sequences with elements taken out.

use vstd::prelude::*;

verus! {

/// `rest` is `full` with the elements at the places outside `at` taken out:
/// `at` gives, for each place of `rest`, the place of `full` that its element
/// stood at, and rises from place to place.
pub open spec fn is_remainder_at<A>(rest: Seq<A>, full: Seq<A>, at: Seq<int>) -> bool {
    &&& at.len() == rest.len()
    &&& forall|j: int|
        0 <= j < at.len() ==> 0 <= #[trigger] at[j] < full.len() && rest[j] == full[at[j]]
    &&& forall|j: int, l: int| 0 <= j < l < at.len() ==> #[trigger] at[j] < #[trigger] at[l]
}

/// `rest` is `full` with some of its elements taken out: nothing added,
/// nothing twice, nothing out of its order.
pub open spec fn is_remainder<A>(rest: Seq<A>, full: Seq<A>) -> bool {
    exists|at: Seq<int>| is_remainder_at(rest, full, at)
}

/// A sequence with nothing taken out is a remainder of itself.
pub proof fn lemma_remainder_whole<A>(full: Seq<A>)
    ensures
        is_remainder(full, full),
{
    let at = Seq::new(full.len(), |j: int| j);
    assert(is_remainder_at(full, full, at));
}

/// A sequence with one element taken out is a remainder of it.
pub proof fn lemma_remainder_remove<A>(full: Seq<A>, i: int)
    requires
        0 <= i < full.len(),
    ensures
        is_remainder(full.remove(i), full),
{
    full.remove_ensures(i);
    let at = Seq::new(
        (full.len() - 1) as nat,
        |j: int|
            if j < i {
                j
            } else {
                j + 1
            },
    );
    assert(is_remainder_at(full.remove(i), full, at));
}

/// A remainder of a remainder is a remainder.
pub proof fn lemma_remainder_of_remainder<A>(rest: Seq<A>, middle: Seq<A>, full: Seq<A>)
    requires
        is_remainder(rest, middle),
        is_remainder(middle, full),
    ensures
        is_remainder(rest, full),
{
    let inner = choose|at: Seq<int>| is_remainder_at(rest, middle, at);
    let outer = choose|at: Seq<int>| is_remainder_at(middle, full, at);
    let at = Seq::new(rest.len(), |j: int| outer[inner[j]]);
    assert forall|j: int, l: int| 0 <= j < l < at.len() implies #[trigger] at[j] < #[trigger] at[l] by {
        assert(inner[j] < inner[l]);
    }
    assert(is_remainder_at(rest, full, at));
}

} // verus!
