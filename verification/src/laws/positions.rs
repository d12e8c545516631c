//! The order of anchors and of versions.

use std::ops::Range;

use vstd::prelude::*;

use crate::anchor::{
    rank_in, spec_contains_position, BufferSnapshot, ExcerptId, MultiBufferSnapshot, RankedAnchor,
    TextAnchor,
};
use crate::clock::{changed_since, last_edit};

verus! {

proof fn lemma_rank_at(ranks: Seq<RankedAnchor>, anchor: TextAnchor, i: int)
    requires
        0 <= i < ranks.len(),
        ranks[i].anchor == anchor,
        forall|j: int| 0 <= j < i ==> (#[trigger] ranks[j]).anchor != anchor,
    ensures
        rank_in(ranks, anchor) == ranks[i].rank,
    decreases ranks.len(),
{
    if i > 0 {
        assert(ranks[0].anchor != anchor);
        let rest = ranks.skip(1);
        assert forall|j: int| 0 <= j < i - 1 implies (#[trigger] rest[j]).anchor != anchor by {
            assert(rest[j] == ranks[j + 1]);
        }
        lemma_rank_at(rest, anchor, i - 1);
    }
}

proof fn lemma_rank_unlisted(ranks: Seq<RankedAnchor>, anchor: TextAnchor)
    requires
        forall|j: int| 0 <= j < ranks.len() ==> (#[trigger] ranks[j]).anchor != anchor,
    ensures
        rank_in(ranks, anchor) == 0,
    decreases ranks.len(),
{
    if ranks.len() > 0 {
        assert(ranks[0].anchor != anchor);
        let rest = ranks.skip(1);
        assert forall|j: int| 0 <= j < rest.len() implies (#[trigger] rest[j]).anchor != anchor by {
            assert(rest[j] == ranks[j + 1]);
        }
        lemma_rank_unlisted(rest, anchor);
    }
}

/// An anchor has the rank of its first entry, and rank 0 if it has no entry.
pub proof fn law_rank_is_that_of_the_first_entry(buffer: BufferSnapshot, anchor: TextAnchor)
    ensures
        forall|i: int|
            0 <= i < buffer.ranks@.len() && (#[trigger] buffer.ranks@[i]).anchor == anchor && (
            forall|j: int| 0 <= j < i ==> (#[trigger] buffer.ranks@[j]).anchor != anchor)
                ==> buffer.rank(anchor) == buffer.ranks@[i].rank,
        (forall|j: int|
            0 <= j < buffer.ranks@.len() ==> (#[trigger] buffer.ranks@[j]).anchor != anchor)
            ==> buffer.rank(anchor) == 0,
{
    assert forall|i: int|
        0 <= i < buffer.ranks@.len() && (#[trigger] buffer.ranks@[i]).anchor == anchor && (forall|
            j: int,
        |
            0 <= j < i ==> (#[trigger] buffer.ranks@[j]).anchor != anchor) implies buffer.rank(
        anchor,
    ) == buffer.ranks@[i].rank by {
        lemma_rank_at(buffer.ranks@, anchor, i);
    }
    if forall|j: int|
        0 <= j < buffer.ranks@.len() ==> (#[trigger] buffer.ranks@[j]).anchor != anchor {
        lemma_rank_unlisted(buffer.ranks@, anchor);
    }
}

/// A position is in a range if it is neither before its start nor after its end in the order
/// of the buffer, whatever the insertions and biases of the three anchors.
pub proof fn law_range_contains_what_is_between(
    range: Range<TextAnchor>,
    position: TextAnchor,
    buffer: &BufferSnapshot,
)
    ensures
        spec_contains_position(range, position, buffer) <==> !(buffer.rank(position) < buffer.rank(
            range.start,
        )) && !(buffer.rank(position) > buffer.rank(range.end)),
{
}

/// An anchor is in the buffer with its id, if it has one and the multi-buffer has that buffer.
pub proof fn law_buffer_is_that_with_the_id(multi_buffer: &MultiBufferSnapshot, id: u64)
    ensures
        multi_buffer.spec_buffer(None) is None,
        multi_buffer.buffers@.contains_key(id) ==> multi_buffer.spec_buffer(Some(id)) == Some(
            &multi_buffer.buffers@[id],
        ),
        !multi_buffer.buffers@.contains_key(id) ==> multi_buffer.spec_buffer(Some(id)) is None,
{
}

/// A position in an excerpt keeps the position in the buffer, and names the excerpt and its
/// buffer.
pub proof fn law_anchor_names_excerpt_and_buffer(
    multi_buffer: &MultiBufferSnapshot,
    excerpt_id: ExcerptId,
    text_anchor: TextAnchor,
)
    ensures
        ({
            let anchor = multi_buffer.spec_anchor_in_excerpt(excerpt_id, text_anchor);
            &&& anchor.text_anchor == text_anchor
            &&& anchor.excerpt_id == excerpt_id
            &&& multi_buffer.excerpts@.contains_key(excerpt_id) ==> anchor.buffer_id == Some(
                multi_buffer.excerpts@[excerpt_id],
            )
            &&& !multi_buffer.excerpts@.contains_key(excerpt_id) ==> anchor.buffer_id is None
        }),
{
}

/// A version has changed since another if for some replica it has a later edit, where a replica
/// that the other does not list has made no edit.
pub proof fn law_version_changes_with_any_replica(a: Seq<u32>, b: Seq<u32>)
    ensures
        changed_since(a, b) <==> exists|replica: int|
            0 <= replica < a.len() && if replica < b.len() {
                #[trigger] a[replica] > b[replica]
            } else {
                a[replica] > 0
            },
        !changed_since(a, a),
{
    if changed_since(a, b) {
        let r = choose|r: int|
            last_edit(a, r) > #[trigger] last_edit(b, r);
        assert(0 <= r < a.len());
        assert(a[r] > 0);
    }
    if exists|replica: int|
        0 <= replica < a.len() && if replica < b.len() {
            #[trigger] a[replica] > b[replica]
        } else {
            a[replica] > 0
        } {
        let r = choose|replica: int|
            0 <= replica < a.len() && if replica < b.len() {
                #[trigger] a[replica] > b[replica]
            } else {
                a[replica] > 0
            };
        assert(last_edit(a, r) > last_edit(b, r));
    }
}

} // verus!
