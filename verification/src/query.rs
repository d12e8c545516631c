//! Queries for the hints of an excerpt.

use std::ops::Range;

use vstd::prelude::*;

use crate::anchor::{BufferSnapshot, ExcerptId, TextAnchor};

verus! {

/// What a refresh does with the hints that are cached already.
#[derive(Debug, Clone, Copy, PartialEq, Eq, Structural)]
pub enum InvalidationStrategy {
    /// Hints are fetched again, whatever is cached.
    Forced,
    /// Cached hints that the fetched ones do not confirm are dropped.
    OnConflict,
    /// Cached hints stay.
    Never,
}

impl InvalidationStrategy {
    /// Whether cached hints that are not fetched again are dropped.
    pub open spec fn spec_invalidates(&self) -> bool {
        *self is Forced || *self is OnConflict
    }

    /// Whether cached hints that are not fetched again are dropped.
    pub fn invalidates(&self) -> (invalidates: bool)
        ensures
            invalidates == self.spec_invalidates(),
    {
        matches!(*self, InvalidationStrategy::Forced | InvalidationStrategy::OnConflict)
    }
}

/// The range of an excerpt in its buffer, and the part of it that the editor shows.
#[derive(Debug, Clone, Copy, PartialEq, Eq, Structural)]
pub struct ExcerptDimensions {
    pub excerpt_range_start: TextAnchor,
    pub excerpt_range_end: TextAnchor,
    pub excerpt_visible_range_start: TextAnchor,
    pub excerpt_visible_range_end: TextAnchor,
}

/// A query for the hints of an excerpt.
#[derive(Debug, Clone, Copy, PartialEq, Eq, Structural)]
pub struct ExcerptQuery {
    pub buffer_id: u64,
    pub excerpt_id: ExcerptId,
    pub dimensions: ExcerptDimensions,
    pub cache_version: usize,
    pub invalidate: InvalidationStrategy,
}

/// The ranges for which a query asks for hints.
#[derive(Debug)]
pub struct HintFetchRanges {
    pub visible_range: Range<TextAnchor>,
    pub other_ranges: Vec<Range<TextAnchor>>,
}

/// The anchor `by` further along in its insertion.
pub open spec fn moved(anchor: TextAnchor, by: int) -> TextAnchor {
    TextAnchor { offset: (anchor.offset + by) as usize, ..anchor }
}

impl ExcerptQuery {
    /// Whether a part of the excerpt comes before the part that is shown.
    pub open spec fn has_part_before(&self, buffer: &BufferSnapshot) -> bool {
        buffer.rank(self.dimensions.excerpt_range_start) < buffer.rank(
            self.dimensions.excerpt_visible_range_start,
        )
    }

    /// Whether a part of the excerpt comes after the part that is shown.
    pub open spec fn has_part_after(&self, buffer: &BufferSnapshot) -> bool {
        buffer.rank(self.dimensions.excerpt_range_end) > buffer.rank(
            self.dimensions.excerpt_visible_range_end,
        )
    }

    /// The part of the excerpt before the part that is shown, up to one offset before it.
    pub open spec fn part_before(&self, buffer: &BufferSnapshot) -> Seq<Range<TextAnchor>> {
        if self.has_part_before(buffer) {
            seq![
                Range {
                    start: self.dimensions.excerpt_range_start,
                    end: moved(self.dimensions.excerpt_visible_range_start, -1),
                },
            ]
        } else {
            Seq::empty()
        }
    }

    /// The part of the excerpt after the part that is shown, from one offset after it.
    pub open spec fn part_after(&self, buffer: &BufferSnapshot) -> Seq<Range<TextAnchor>> {
        if self.has_part_after(buffer) {
            seq![
                Range {
                    start: moved(self.dimensions.excerpt_visible_range_end, 1),
                    end: self.dimensions.excerpt_range_end,
                },
            ]
        } else {
            Seq::empty()
        }
    }

    /// Whether the offsets next to the part that is shown can be expressed, as far as a
    /// range begins or ends there.
    pub open spec fn spec_neighbours_exist(&self, buffer: &BufferSnapshot) -> bool {
        &&& self.has_part_before(buffer) ==> self.dimensions.excerpt_visible_range_start.offset > 0
        &&& self.has_part_after(buffer) ==> self.dimensions.excerpt_visible_range_end.offset
            < usize::MAX
    }

    /// Whether the offsets next to the part that is shown can be expressed, as far as a
    /// range begins or ends there.
    pub fn neighbours_exist(&self, buffer: &BufferSnapshot) -> (exist: bool)
        ensures
            exist == self.spec_neighbours_exist(buffer),
    {
        let dimensions = self.dimensions;
        let before = buffer.rank(dimensions.excerpt_range_start) < buffer.rank(
            dimensions.excerpt_visible_range_start,
        );
        let after = buffer.rank(dimensions.excerpt_range_end) > buffer.rank(
            dimensions.excerpt_visible_range_end,
        );
        (!before || dimensions.excerpt_visible_range_start.offset > 0) && (!after
            || dimensions.excerpt_visible_range_end.offset < usize::MAX)
    }

    /// The ranges to fetch hints for: the part of the excerpt that is shown, and what there
    /// is of it before and after that part.
    pub fn hints_fetch_ranges(&self, buffer: &BufferSnapshot) -> (ranges: HintFetchRanges)
        requires
            self.spec_neighbours_exist(buffer),
        ensures
            ranges.visible_range == (Range {
                start: self.dimensions.excerpt_visible_range_start,
                end: self.dimensions.excerpt_visible_range_end,
            }),
            ranges.other_ranges@ == self.part_before(buffer) + self.part_after(buffer),
    {
        let dimensions = self.dimensions;
        let visible_range = Range {
            start: dimensions.excerpt_visible_range_start,
            end: dimensions.excerpt_visible_range_end,
        };
        let mut other_ranges: Vec<Range<TextAnchor>> = Vec::new();
        if buffer.rank(dimensions.excerpt_range_start) < buffer.rank(
            dimensions.excerpt_visible_range_start,
        ) {
            let mut end = dimensions.excerpt_visible_range_start;
            end.offset = end.offset - 1;
            other_ranges.push(Range { start: dimensions.excerpt_range_start, end });
        }
        assert(other_ranges@ =~= self.part_before(buffer));
        if buffer.rank(dimensions.excerpt_range_end) > buffer.rank(
            dimensions.excerpt_visible_range_end,
        ) {
            let mut start = dimensions.excerpt_visible_range_end;
            start.offset = start.offset + 1;
            other_ranges.push(Range { start, end: dimensions.excerpt_range_end });
        }
        assert(other_ranges@ =~= self.part_before(buffer) + self.part_after(buffer));
        HintFetchRanges { visible_range, other_ranges }
    }
}

} // verus!
