//! Sequences of ranks: ascending order and runs of consecutive ranks.

use vstd::prelude::*;
use vstd::seq_lib::{to_multiset_contains, to_multiset_insert, to_multiset_len};

verus! {

/// Whether `ranks` never descends from one position to a later one.
pub open spec fn is_ascending(ranks: Seq<u8>) -> bool {
    forall|i: int, j: int| 0 <= i <= j < ranks.len() ==> ranks[i] <= ranks[j]
}

/// Whether each rank is exactly one greater than its predecessor.
pub open spec fn steps_by_one(ranks: Seq<u8>) -> bool {
    forall|i: int| 0 <= i < ranks.len() - 1 ==> #[trigger] ranks[i + 1] == ranks[i] + 1
}

/// Whether the ranks, in whatever order they stand, are a run of
/// consecutive values: no rank occurs twice, and any two of them differ by
/// less than the number of ranks. Ranks are a flat numeric line: the highest
/// rank is not adjacent to the lowest.
pub open spec fn is_run(ranks: Seq<u8>) -> bool {
    &&& ranks.no_duplicates()
    &&& forall|i: int, j: int|
        0 <= i < ranks.len() && 0 <= j < ranks.len() ==> ranks[i] - ranks[j] < ranks.len()
}

/// In a sequence that steps by one, the rank at `j` lies `j - i` above the
/// rank at `i`.
proof fn lemma_steps_distance(ranks: Seq<u8>, i: int, j: int)
    requires
        steps_by_one(ranks),
        0 <= i <= j < ranks.len(),
    ensures
        ranks[j] == ranks[i] + (j - i),
    decreases j - i,
{
    if i < j {
        lemma_steps_distance(ranks, i, j - 1);
        assert(ranks[(j - 1) + 1] == ranks[j - 1] + 1);
    }
}

/// In an ascending sequence without duplicates, the rank at `j` lies at
/// least `j - i` above the rank at `i`.
proof fn lemma_strict_distance(ranks: Seq<u8>, i: int, j: int)
    requires
        is_ascending(ranks),
        ranks.no_duplicates(),
        0 <= i <= j < ranks.len(),
    ensures
        ranks[j] >= ranks[i] + (j - i),
    decreases j - i,
{
    if i < j {
        lemma_strict_distance(ranks, i, j - 1);
    }
}

/// Two sequences with the same elements, counted with multiplicity, are
/// both runs or neither.
proof fn lemma_run_of_permutation(a: Seq<u8>, b: Seq<u8>)
    requires
        a.to_multiset() == b.to_multiset(),
        is_run(a),
    ensures
        is_run(b),
{
    a.lemma_multiset_has_no_duplicates();
    b.lemma_multiset_has_no_duplicates_conv();
    assert(a.len() == b.len()) by {
        to_multiset_len(a);
        to_multiset_len(b);
    }
    assert forall|i: int, j: int| 0 <= i < b.len() && 0 <= j < b.len() implies b[i] - b[j] < b.len() by {
        to_multiset_contains(b, b[i]);
        to_multiset_contains(a, b[i]);
        to_multiset_contains(b, b[j]);
        to_multiset_contains(a, b[j]);
        let k = choose|k: int| 0 <= k < a.len() && a[k] == b[i];
        let l = choose|l: int| 0 <= l < a.len() && a[l] == b[j];
        assert(a[k] - a[l] < a.len());
    }
}

/// Sorting settles whether ranks are a run: they are one exactly when, in
/// ascending order, each rank is one greater than its predecessor.
pub proof fn lemma_run_iff_sorted_steps(ranks: Seq<u8>, sorted: Seq<u8>)
    requires
        sorted.to_multiset() == ranks.to_multiset(),
        is_ascending(sorted),
    ensures
        is_run(ranks) <==> steps_by_one(sorted),
{
    if steps_by_one(sorted) {
        assert forall|i: int, j: int|
            0 <= i < sorted.len() && 0 <= j < sorted.len() implies (i != j ==> sorted[i] != sorted[j])
            && sorted[i] - sorted[j] < sorted.len() by {
            if i < j {
                lemma_steps_distance(sorted, i, j);
            } else {
                lemma_steps_distance(sorted, j, i);
            }
        }
        lemma_run_of_permutation(sorted, ranks);
    }
    if is_run(ranks) {
        lemma_run_of_permutation(ranks, sorted);
        let last = sorted.len() - 1;
        assert forall|i: int| 0 <= i < sorted.len() - 1 implies #[trigger] sorted[i + 1] == sorted[i]
            + 1 by {
            lemma_strict_distance(sorted, 0, i);
            lemma_strict_distance(sorted, i + 1, last);
        }
    }
}

/// Puts `value` into the ascending `sorted`, behind the ranks that are not
/// greater.
pub fn insert_ascending(sorted: &mut Vec<u8>, value: u8)
    requires
        is_ascending(old(sorted)@),
    ensures
        is_ascending(final(sorted)@),
        final(sorted)@.to_multiset() == old(sorted)@.to_multiset().insert(value),
        final(sorted)@.len() == old(sorted)@.len() + 1,
{
    let mut position: usize = 0;
    while position < sorted.len() && sorted[position] <= value
        invariant
            position <= sorted.len(),
            forall|k: int| 0 <= k < position ==> sorted@[k] <= value,
        decreases sorted.len() - position,
    {
        position += 1;
    }
    proof {
        to_multiset_insert(sorted@, position as int, value);
    }
    sorted.insert(position, value);
}

} // verus!
