//! The order of the hints of an excerpt.

use vstd::prelude::*;

use crate::anchor::{BufferSnapshot, TextAnchor};
use crate::hint::{HintView, InlayId};
use crate::laws::fetched::lemma_sort_contains;
use crate::order::{answers_search, at_rank, hint_rank, is_stable_sort, sorted_by_position};
use crate::sequences::{lemma_filter_had_order, lemma_filter_keeps_order};

verus! {

/// Sorted hints are the same hints as often as before, in the order of the ranks of their
/// positions.
pub proof fn law_sorted_hints_are_in_order(
    before: Seq<(InlayId, HintView)>,
    after: Seq<(InlayId, HintView)>,
    buffer: &BufferSnapshot,
)
    requires
        is_stable_sort(before, after, buffer),
    ensures
        after.len() == before.len(),
        after.to_multiset() == before.to_multiset(),
        forall|hint: (InlayId, HintView)| #[trigger]
            after.contains(hint) <==> before.contains(hint),
        forall|i: int, j: int|
            0 <= i < j < after.len() ==> buffer.rank((#[trigger] after[i]).1.position)
                <= buffer.rank((#[trigger] after[j]).1.position),
{
    before.to_multiset_ensures();
    after.to_multiset_ensures();
    assert forall|hint: (InlayId, HintView)| #[trigger]
        after.contains(hint) <==> before.contains(hint) by {
        lemma_sort_contains(before, after, buffer, hint);
    }
    assert forall|i: int, j: int| 0 <= i < j < after.len() implies buffer.rank(
        (#[trigger] after[i]).1.position,
    ) <= buffer.rank((#[trigger] after[j]).1.position) by {
        assert(hint_rank(buffer, after[i]) <= hint_rank(buffer, after[j]));
    }
}

/// Two hints at one position are in the same order after sorting as before.
pub proof fn law_sorting_keeps_order_at_one_position(
    before: Seq<(InlayId, HintView)>,
    after: Seq<(InlayId, HintView)>,
    buffer: &BufferSnapshot,
    i: int,
    j: int,
)
    requires
        is_stable_sort(before, after, buffer),
        0 <= i < j < before.len(),
        buffer.rank(before[i].1.position) == buffer.rank(before[j].1.position),
    ensures
        exists|k: int, l: int|
            0 <= k < l < after.len() && #[trigger] after[k] == before[i] && #[trigger] after[l]
                == before[j],
{
    let keep = at_rank(buffer, buffer.rank(before[i].1.position));
    let (p, q) = lemma_filter_keeps_order(before, keep, i, j);
    assert(after.filter(keep) == before.filter(keep));
    let (k, l) = lemma_filter_had_order(after, keep, p, q);
    assert(after[k] == before[i] && after[l] == before[j]);
}

/// A search finds only hints at the position, and finds one where there is any among hints that
/// are in order.
pub proof fn law_search_finds_what_is_there(
    hints: Seq<(InlayId, HintView)>,
    position: TextAnchor,
    buffer: &BufferSnapshot,
    found: Option<int>,
)
    requires
        answers_search(hints, position, buffer, found),
    ensures
        found matches Some(i) ==> 0 <= i < hints.len() && buffer.rank(hints[i].1.position)
            == buffer.rank(position),
        (forall|i: int, j: int|
            0 <= i < j < hints.len() ==> buffer.rank((#[trigger] hints[i]).1.position)
                <= buffer.rank((#[trigger] hints[j]).1.position)) && (exists|i: int|
            0 <= i < hints.len() && buffer.rank((#[trigger] hints[i]).1.position) == buffer.rank(
                position,
            )) ==> found is Some,
{
    if forall|i: int, j: int|
        0 <= i < j < hints.len() ==> buffer.rank((#[trigger] hints[i]).1.position) <= buffer.rank(
            (#[trigger] hints[j]).1.position,
        ) {
        assert forall|i: int, j: int| 0 <= i <= j < hints.len() implies #[trigger] hint_rank(
            buffer,
            hints[i],
        ) <= #[trigger] hint_rank(buffer, hints[j]) by {
            if i < j {
                assert(buffer.rank(hints[i].1.position) <= buffer.rank(hints[j].1.position));
            }
        }
        assert(sorted_by_position(hints, buffer));
        if found is None {
            assert forall|i: int| 0 <= i < hints.len() implies buffer.rank(
                (#[trigger] hints[i]).1.position,
            ) != buffer.rank(position) by {
                assert(hint_rank(buffer, hints[i]) != buffer.rank(position));
            }
        }
    }
}

} // verus!
