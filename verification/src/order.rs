//! The hints of an excerpt in the order of their positions.

use vstd::prelude::*;

use crate::anchor::{BufferSnapshot, TextAnchor};
use crate::hint::{HintView, InlayHint, InlayId};
use crate::sequences::{lemma_filter_none, lemma_filter_step};

verus! {

/// The mathematical value of hints with their ids.
pub open spec fn hint_views(hints: Seq<(InlayId, InlayHint)>) -> Seq<(InlayId, HintView)> {
    Seq::new(hints.len(), |i: int| (hints[i].0, hints[i].1@))
}

/// The place of a hint in the order of the buffer's positions.
pub open spec fn hint_rank(buffer_snapshot: &BufferSnapshot, hint: (InlayId, HintView)) -> u64 {
    buffer_snapshot.rank(hint.1.position)
}

/// Whether the hints stand in the order of their positions.
pub open spec fn sorted_by_position(
    hints: Seq<(InlayId, HintView)>,
    buffer_snapshot: &BufferSnapshot,
) -> bool {
    forall|i: int, j: int|
        0 <= i <= j < hints.len() ==> #[trigger] hint_rank(buffer_snapshot, hints[i])
            <= #[trigger] hint_rank(buffer_snapshot, hints[j])
}

/// Holds of the hints at the place `rank`.
pub open spec fn at_rank(buffer_snapshot: &BufferSnapshot, rank: u64) -> spec_fn(
    (InlayId, HintView),
) -> bool {
    |hint: (InlayId, HintView)| hint_rank(buffer_snapshot, hint) == rank
}

/// Whether `after` has the hints of `before` in the order of their positions, and the hints
/// at one position in the order in which `before` has them.
pub open spec fn is_stable_sort(
    before: Seq<(InlayId, HintView)>,
    after: Seq<(InlayId, HintView)>,
    buffer_snapshot: &BufferSnapshot,
) -> bool {
    &&& sorted_by_position(after, buffer_snapshot)
    &&& after.to_multiset() == before.to_multiset()
    &&& forall|rank: u64| #[trigger]
        after.filter(at_rank(buffer_snapshot, rank)) == before.filter(
            at_rank(buffer_snapshot, rank),
        )
}

/// Whether `found` answers the question where among `hints` one stands at `position`.
///
/// Of several hints there it may name any, and where the hints are not in order it may miss
/// one.
pub open spec fn answers_search(
    hints: Seq<(InlayId, HintView)>,
    position: TextAnchor,
    buffer_snapshot: &BufferSnapshot,
    found: Option<int>,
) -> bool {
    match found {
        Some(i) => 0 <= i < hints.len() && hint_rank(buffer_snapshot, hints[i])
            == buffer_snapshot.rank(position),
        None => sorted_by_position(hints, buffer_snapshot) ==> forall|i: int|
            0 <= i < hints.len() ==> #[trigger] hint_rank(buffer_snapshot, hints[i])
                != buffer_snapshot.rank(position),
    }
}

/// The place at which a search by bisection between `low` and `high` ends.
spec fn bisect(
    hints: Seq<(InlayId, HintView)>,
    rank: u64,
    buffer_snapshot: &BufferSnapshot,
    low: int,
    high: int,
) -> Option<int>
    decreases high - low,
{
    if low >= high {
        None
    } else {
        let middle = low + (high - low) / 2;
        let middle_rank = hint_rank(buffer_snapshot, hints[middle]);
        if middle_rank == rank {
            Some(middle)
        } else if middle_rank < rank {
            bisect(hints, rank, buffer_snapshot, middle + 1, high)
        } else {
            bisect(hints, rank, buffer_snapshot, low, middle)
        }
    }
}

/// The place at which a search for a hint of this rank ends: the same for every search.
pub closed spec fn search_end(
    hints: Seq<(InlayId, HintView)>,
    rank: u64,
    buffer_snapshot: &BufferSnapshot,
) -> Option<int> {
    bisect(hints, rank, buffer_snapshot, 0, hints.len() as int)
}

/// A place in a vector as a place in its sequence.
pub open spec fn place_as_int(place: Option<usize>) -> Option<int> {
    match place {
        Some(i) => Some(i as int),
        None => None,
    }
}

/// Searches `hints`, which should be in the order of their positions, for one at `position`.
pub fn search_position(
    hints: &Vec<(InlayId, InlayHint)>,
    position: TextAnchor,
    buffer_snapshot: &BufferSnapshot,
) -> (found: Option<usize>)
    ensures
        answers_search(hint_views(hints@), position, buffer_snapshot, place_as_int(found)),
        place_as_int(found) == search_end(
            hint_views(hints@),
            buffer_snapshot.rank(position),
            buffer_snapshot,
        ),
{
    let ghost views = hint_views(hints@);
    let rank: u64 = buffer_snapshot.rank(position);
    let mut low: usize = 0;
    let mut high: usize = hints.len();
    while low < high
        invariant
            low <= high <= hints.len(),
            views == hint_views(hints@),
            rank == buffer_snapshot.rank(position),
            search_end(views, rank, buffer_snapshot) == bisect(
                views,
                rank,
                buffer_snapshot,
                low as int,
                high as int,
            ),
            sorted_by_position(views, buffer_snapshot) ==> forall|i: int|
                0 <= i < low ==> #[trigger] hint_rank(buffer_snapshot, views[i]) < rank,
            sorted_by_position(views, buffer_snapshot) ==> forall|i: int|
                high <= i < views.len() ==> #[trigger] hint_rank(buffer_snapshot, views[i]) > rank,
        decreases high - low,
    {
        let middle: usize = low + (high - low) / 2;
        let middle_rank: u64 = buffer_snapshot.rank(hints[middle].1.position);
        assert(middle_rank == hint_rank(buffer_snapshot, views[middle as int]));
        if middle_rank == rank {
            return Some(middle);
        }
        if middle_rank < rank {
            low = middle + 1;
        } else {
            high = middle;
        }
    }
    None
}

proof fn lemma_insert_keeps_places(
    hints: Seq<(InlayId, HintView)>,
    at: int,
    hint: (InlayId, HintView),
    buffer_snapshot: &BufferSnapshot,
    rank: u64,
)
    requires
        0 <= at <= hints.len(),
        forall|i: int|
            at <= i < hints.len() ==> #[trigger] hint_rank(buffer_snapshot, hints[i]) > hint_rank(
                buffer_snapshot,
                hint,
            ),
    ensures
        hints.insert(at, hint).filter(at_rank(buffer_snapshot, rank)) == hints.push(hint).filter(
            at_rank(buffer_snapshot, rank),
        ),
{
    let keep = at_rank(buffer_snapshot, rank);
    let head = hints.take(at);
    let tail = hints.skip(at);
    let one = seq![hint];
    assert(hints.insert(at, hint) =~= (head + one) + tail);
    assert(hints.push(hint) =~= (head + tail) + one);
    Seq::filter_distributes_over_add(head + one, tail, keep);
    Seq::filter_distributes_over_add(head, one, keep);
    Seq::filter_distributes_over_add(head + tail, one, keep);
    Seq::filter_distributes_over_add(head, tail, keep);
    assert forall|i: int| 0 <= i < tail.len() implies hint_rank(buffer_snapshot, #[trigger] tail[i])
        > hint_rank(buffer_snapshot, hint) by {
        assert(tail[i] == hints[at + i]);
    }
    if hint_rank(buffer_snapshot, hint) == rank {
        lemma_filter_none(tail, keep);
    } else {
        lemma_filter_none(one, keep);
    }
    assert(hints.insert(at, hint).filter(keep) =~= hints.push(hint).filter(keep));
}

/// Brings the hints into the order of their positions; hints at one position keep their
/// order.
pub fn sort_by_position(
    hints: Vec<(InlayId, InlayHint)>,
    buffer_snapshot: &BufferSnapshot,
) -> (sorted: Vec<(InlayId, InlayHint)>)
    ensures
        is_stable_sort(hint_views(hints@), hint_views(sorted@), buffer_snapshot),
{
    let ghost before = hint_views(hints@);
    let mut sorted: Vec<(InlayId, InlayHint)> = Vec::new();
    assert(before.take(0) =~= hint_views(sorted@));
    for hint in it: hints
        invariant
            before == hint_views(it.seq()),
            is_stable_sort(before.take(it.index() as int), hint_views(sorted@), buffer_snapshot),
            sorted.len() == it.index(),
    {
        let ghost done = hint_views(sorted@);
        let ghost view = (hint.0, hint.1@);
        let ghost index = it.index() as int;
        let rank: u64 = buffer_snapshot.rank(hint.1.position);
        let mut at: usize = sorted.len();
        while at > 0 && buffer_snapshot.rank(sorted[at - 1].1.position) > rank
            invariant
                at <= sorted.len(),
                done == hint_views(sorted@),
                rank == buffer_snapshot.rank(hint.1.position),
                sorted_by_position(done, buffer_snapshot),
                forall|i: int|
                    at <= i < done.len() ==> #[trigger] hint_rank(buffer_snapshot, done[i]) > rank,
            decreases at,
        {
            assert(hint_rank(buffer_snapshot, done[at - 1]) > rank);
            at = at - 1;
        }
        proof {
            if at > 0 {
                assert(hint_rank(buffer_snapshot, done[at - 1]) <= rank);
            }
        }
        sorted.insert(at, hint);
        proof {
            let now = hint_views(sorted@);
            assert(now =~= done.insert(at as int, view));
            assert(now.to_multiset() =~= before.take(index + 1).to_multiset()) by {
                vstd::seq_lib::to_multiset_insert(done, at as int, view);
                vstd::seq_lib::to_multiset_build(before.take(index), view);
                assert(before.take(index + 1) =~= before.take(index).push(view));
            }
            assert(sorted_by_position(now, buffer_snapshot)) by {
                assert forall|i: int, j: int| 0 <= i <= j < now.len() implies #[trigger] hint_rank(
                    buffer_snapshot,
                    now[i],
                ) <= #[trigger] hint_rank(buffer_snapshot, now[j]) by {
                    let i0 = if i < at { i } else { i - 1 };
                    let j0 = if j < at { j } else { j - 1 };
                    if i != at {
                        assert(now[i] == done[i0]);
                        if i < at {
                            assert(hint_rank(buffer_snapshot, done[i0]) <= hint_rank(
                                buffer_snapshot,
                                done[at - 1],
                            ));
                        }
                    }
                    if j != at {
                        assert(now[j] == done[j0]);
                    }
                }
            }
            assert forall|r: u64| #[trigger]
                now.filter(at_rank(buffer_snapshot, r)) == before.take(index + 1).filter(
                    at_rank(buffer_snapshot, r),
                ) by {
                lemma_insert_keeps_places(done, at as int, view, buffer_snapshot, r);
                assert(done.push(view).take(done.len() as int) =~= done);
                assert(done.push(view).take(done.len() as int + 1) =~= done.push(view));
                lemma_filter_step(done.push(view), at_rank(buffer_snapshot, r), done.len() as int);
                lemma_filter_step(before, at_rank(buffer_snapshot, r), index);
                assert(done.filter(at_rank(buffer_snapshot, r)) == before.take(index).filter(
                    at_rank(buffer_snapshot, r),
                ));
            }
        }
    }
    assert(before.take(before.len() as int) =~= before);
    sorted
}

} // verus!
