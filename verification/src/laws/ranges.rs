//! The ranges to fetch hints for.

use std::ops::Range;

use vstd::prelude::*;

use crate::anchor::{BufferSnapshot, TextAnchor};
use crate::query::{ExcerptQuery, HintFetchRanges, InvalidationStrategy};

verus! {

/// A forced refresh and one on a conflict invalidate what is cached; any other does not.
pub proof fn law_strategies_that_invalidate()
    ensures
        InvalidationStrategy::Forced.spec_invalidates(),
        InvalidationStrategy::OnConflict.spec_invalidates(),
        !InvalidationStrategy::Never.spec_invalidates(),
{
}

/// The ranges to fetch cover the excerpt. The visible range is fetched as it is. Whenever the
/// excerpt starts before it, one range goes from the start of the excerpt to one offset before
/// it; whenever the excerpt ends after it, one range goes from one offset after it to the end of
/// the excerpt; and there are no others.
pub proof fn law_ranges_cover_the_excerpt(
    query: ExcerptQuery,
    buffer: &BufferSnapshot,
    ranges: HintFetchRanges,
)
    requires
        query.spec_neighbours_exist(buffer),
        ranges.other_ranges@ == query.part_before(buffer) + query.part_after(buffer),
    ensures
        ({
            let dimensions = query.dimensions;
            let first = dimensions.excerpt_visible_range_start;
            let last = dimensions.excerpt_visible_range_end;
            let starts_before = buffer.rank(dimensions.excerpt_range_start) < buffer.rank(first);
            let ends_after = buffer.rank(dimensions.excerpt_range_end) > buffer.rank(last);
            let before = Range {
                start: dimensions.excerpt_range_start,
                end: TextAnchor {
                    insertion: first.insertion,
                    offset: (first.offset - 1) as usize,
                    bias: first.bias,
                },
            };
            let after = Range {
                start: TextAnchor {
                    insertion: last.insertion,
                    offset: (last.offset + 1) as usize,
                    bias: last.bias,
                },
                end: dimensions.excerpt_range_end,
            };
            let others = ranges.other_ranges@;
            &&& starts_before && ends_after ==> others == seq![before, after]
            &&& starts_before && !ends_after ==> others == seq![before]
            &&& !starts_before && ends_after ==> others == seq![after]
            &&& !starts_before && !ends_after ==> others.len() == 0
            &&& starts_before ==> first.offset > 0
            &&& ends_after ==> last.offset < usize::MAX
        }),
{
    let others = ranges.other_ranges@;
    assert(query.part_before(buffer) + query.part_after(buffer) =~= others);
    assert(others.len() == query.part_before(buffer).len() + query.part_after(buffer).len());
}

/// The ranges to fetch are missing only where an offset beside the visible range cannot be
/// expressed although the excerpt goes on there.
pub proof fn law_ranges_exist(query: ExcerptQuery, buffer: &BufferSnapshot)
    requires
        query.dimensions.excerpt_visible_range_start.offset > 0 || buffer.rank(
            query.dimensions.excerpt_range_start,
        ) >= buffer.rank(query.dimensions.excerpt_visible_range_start),
        query.dimensions.excerpt_visible_range_end.offset < usize::MAX || buffer.rank(
            query.dimensions.excerpt_range_end,
        ) <= buffer.rank(query.dimensions.excerpt_visible_range_end),
    ensures
        query.spec_neighbours_exist(buffer),
{
}

} // verus!
