//! Positions in buffers and in the excerpts of a multi-buffer.

use std::collections::HashMap;
use std::ops::Range;

use vstd::prelude::*;

use crate::clock::Global;

verus! {

broadcast use vstd::std_specs::hash::group_hash_axioms;

/// Identifies an excerpt of a multi-buffer.
pub type ExcerptId = usize;

/// To which of its two neighbours an anchor sticks.
#[derive(Debug, Clone, Copy, PartialEq, Eq, Structural)]
pub enum Bias {
    Left,
    Right,
}

/// A position in a buffer that moves along with the text around it: the insertion that
/// brought the text, and an offset in that insertion.
#[derive(Debug, Clone, Copy, PartialEq, Eq, Structural)]
pub struct TextAnchor {
    pub insertion: u64,
    pub offset: usize,
    pub bias: Bias,
}

/// A position in a multi-buffer.
#[derive(Debug, Clone, Copy, PartialEq, Eq, Structural)]
pub struct Anchor {
    pub buffer_id: Option<u64>,
    pub excerpt_id: ExcerptId,
    pub text_anchor: TextAnchor,
}

/// An anchor together with the place that it has among the anchors of a snapshot.
#[derive(Debug, Clone, Copy, PartialEq, Eq, Structural)]
pub struct RankedAnchor {
    pub anchor: TextAnchor,
    pub rank: u64,
}

/// A buffer at one of its versions: the version, and the order of its anchors there.
#[derive(Debug)]
pub struct BufferSnapshot {
    pub version: Global,
    /// The order of the anchors, as the rank of each. An anchor that is not listed counts as
    /// one of rank 0, so every anchor that can come to be compared has to be listed: those of
    /// the excerpts, of the cached hints and of the shown inlays, those of the hints that are
    /// fetched later, and those one offset before and after the shown part of an excerpt.
    pub ranks: Vec<RankedAnchor>,
}

/// The rank of `anchor` in `ranks`: that of its first entry. An anchor that is not listed
/// has rank 0.
pub open spec fn rank_in(ranks: Seq<RankedAnchor>, anchor: TextAnchor) -> u64
    decreases ranks.len(),
{
    if ranks.len() == 0 {
        0
    } else if ranks[0].anchor == anchor {
        ranks[0].rank
    } else {
        rank_in(ranks.skip(1), anchor)
    }
}

impl BufferSnapshot {
    /// The place of `anchor` in the order of the buffer's anchors: of two anchors, the one
    /// with the smaller rank comes first, and two anchors of one rank are at one position.
    pub open spec fn spec_rank(&self, anchor: TextAnchor) -> u64 {
        rank_in(self.ranks@, anchor)
    }

    /// The place of `anchor` in the order of the buffer's anchors.
    #[verifier::when_used_as_spec(spec_rank)]
    pub fn rank(&self, anchor: TextAnchor) -> (rank: u64)
        ensures
            rank == self.spec_rank(anchor),
    {
        let mut i: usize = 0;
        assert(self.ranks@.skip(0) =~= self.ranks@);
        while i < self.ranks.len()
            invariant
                i <= self.ranks.len(),
                rank_in(self.ranks@, anchor) == rank_in(self.ranks@.skip(i as int), anchor),
            decreases self.ranks.len() - i,
        {
            let entry = self.ranks[i];
            if entry.anchor == anchor {
                return entry.rank;
            }
            assert(self.ranks@.skip(i as int).skip(1) =~= self.ranks@.skip(i + 1));
            i = i + 1;
        }
        0
    }
}

/// Whether `position` lies in `range`, whose end counts as in it.
pub open spec fn spec_contains_position(
    range: Range<TextAnchor>,
    position: TextAnchor,
    buffer_snapshot: &BufferSnapshot,
) -> bool {
    buffer_snapshot.rank(range.start) <= buffer_snapshot.rank(position) <= buffer_snapshot.rank(
        range.end,
    )
}

/// Whether `position` lies in `range`, whose end counts as in it.
pub fn contains_position(
    range: &Range<TextAnchor>,
    position: TextAnchor,
    buffer_snapshot: &BufferSnapshot,
) -> (contained: bool)
    ensures
        contained == spec_contains_position(*range, position, buffer_snapshot),
{
    let rank: u64 = buffer_snapshot.rank(position);
    buffer_snapshot.rank(range.start) <= rank && buffer_snapshot.rank(range.end) >= rank
}

/// The buffers of a multi-buffer and the excerpts that it shows of them.
#[derive(Debug)]
pub struct MultiBufferSnapshot {
    /// The buffers, by their ids.
    pub buffers: HashMap<u64, BufferSnapshot>,
    /// The buffer of each excerpt.
    pub excerpts: HashMap<ExcerptId, u64>,
}

impl MultiBufferSnapshot {
    /// The buffer that an anchor with this `buffer_id` is in, where the multi-buffer has it.
    pub open spec fn spec_buffer(&self, buffer_id: Option<u64>) -> Option<&BufferSnapshot> {
        match buffer_id {
            Some(id) => if self.buffers@.contains_key(id) {
                Some(&self.buffers@[id])
            } else {
                None
            },
            None => None,
        }
    }

    /// The buffer that an anchor with this `buffer_id` is in, where the multi-buffer has it.
    pub fn buffer(&self, buffer_id: Option<u64>) -> (buffer: Option<&BufferSnapshot>)
        ensures
            buffer == self.spec_buffer(buffer_id),
    {
        match buffer_id {
            Some(id) => self.buffers.get(&id),
            None => None,
        }
    }

    /// The position `text_anchor` of the excerpt's buffer, as a position in the excerpt.
    /// An excerpt that the multi-buffer does not have gives a position without a buffer.
    pub open spec fn spec_anchor_in_excerpt(
        &self,
        excerpt_id: ExcerptId,
        text_anchor: TextAnchor,
    ) -> Anchor {
        Anchor {
            buffer_id: if self.excerpts@.contains_key(excerpt_id) {
                Some(self.excerpts@[excerpt_id])
            } else {
                None
            },
            excerpt_id,
            text_anchor,
        }
    }

    /// The position `text_anchor` of the excerpt's buffer, as a position in the excerpt.
    /// An excerpt that the multi-buffer does not have gives a position without a buffer.
    pub fn anchor_in_excerpt(&self, excerpt_id: ExcerptId, text_anchor: TextAnchor) -> (anchor:
        Anchor)
        ensures
            anchor == self.spec_anchor_in_excerpt(excerpt_id, text_anchor),
    {
        let buffer_id: Option<u64> = match self.excerpts.get(&excerpt_id) {
            Some(id) => Some(*id),
            None => None,
        };
        Anchor { buffer_id, excerpt_id, text_anchor }
    }
}

} // verus!
