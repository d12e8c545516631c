//! What the comparison of fetched hints with cached and shown ones tells.

use std::ops::Range;

use vstd::prelude::*;

use crate::anchor::{BufferSnapshot, TextAnchor};
use crate::hint::{Inlay, InlayHint, InlayId};
use crate::laws::editor::lemma_filtered_ids;
use crate::laws::fetched::{
    found_alone, lemma_added, lemma_cached_is_confirmed, lemma_found_in_bounds,
};
use crate::order::{hint_rank, sorted_by_position};
use crate::query::{ExcerptQuery, InvalidationStrategy};
use crate::sequences::{lemma_filter_contains_iff, lemma_filter_none, lemma_same_filter};
use crate::updates::{
    bare_views, cached_views, inlay_ids, is_update_for, CachedExcerptHints, ExcerptHintsUpdate,
    FetchedHints,
};

verus! {

/// A comparison of hints that were fetched for `range` of `buffer`.
pub struct Comparison<'a> {
    pub query: ExcerptQuery,
    pub range: Range<TextAnchor>,
    pub new_hints: Seq<InlayHint>,
    pub buffer: BufferSnapshot,
    /// The hints that are cached, where anything is.
    pub cached: Option<&'a CachedExcerptHints>,
    pub visible_hints: Seq<Inlay>,
}

impl<'a> Comparison<'a> {
    /// Whether the comparison tells this.
    pub open spec fn tells(self, update: Option<ExcerptHintsUpdate>) -> bool {
        exists|fetched: FetchedHints| #[trigger]
            fetched.compares(
                self.range,
                self.buffer,
                bare_views(self.new_hints),
                cached_views(self.cached),
            ) && is_update_for(update, fetched, self.query, self.visible_hints)
    }

    /// Whether a position is neither before the start nor after the end of the range in the
    /// order of the buffer.
    pub open spec fn between(self, position: TextAnchor) -> bool {
        self.buffer.rank(self.range.start) <= self.buffer.rank(position) <= self.buffer.rank(
            self.range.end,
        )
    }

    /// The hints that are cached.
    pub open spec fn entries(self) -> Seq<(InlayId, InlayHint)> {
        match self.cached {
            Some(cached) => cached.hints@,
            None => Seq::empty(),
        }
    }

    /// Whether the fetched hint `j` lies in the range and is the same as the cached hint `c`.
    pub open spec fn same(self, j: int, c: int) -> bool {
        &&& 0 <= j < self.new_hints.len()
        &&& 0 <= c < self.entries().len()
        &&& self.between(self.new_hints[j].position)
        &&& self.entries()[c].1@ == self.new_hints[j]@
    }

    /// Whether the cached hints are in the order of their positions, no two of them at the
    /// position of a fetched hint in the range.
    pub open spec fn cached_in_order(self) -> bool {
        &&& forall|a: int, b: int|
            0 <= a <= b < self.entries().len() ==> self.buffer.rank(
                (#[trigger] self.entries()[a]).1.position,
            ) <= self.buffer.rank((#[trigger] self.entries()[b]).1.position)
        &&& forall|a: int, b: int, j: int|
            0 <= a < self.entries().len() && 0 <= b < self.entries().len() && a != b && 0 <= j
                < self.new_hints.len() && self.between((#[trigger] self.new_hints[j]).position)
                && self.buffer.rank((#[trigger] self.entries()[a]).1.position) == self.buffer.rank(
                self.new_hints[j].position,
            ) ==> self.buffer.rank((#[trigger] self.entries()[b]).1.position) != self.buffer.rank(
                self.new_hints[j].position,
            )
    }
}

/// What stands behind the answer of a comparison.
proof fn lemma_behind(comparison: Comparison, update: Option<ExcerptHintsUpdate>) -> (fetched:
    FetchedHints)
    requires
        comparison.tells(update),
    ensures
        is_update_for(update, fetched, comparison.query, comparison.visible_hints),
        fetched.well_searched(),
        fetched.buffer == comparison.buffer,
        fetched.hints.len() == comparison.new_hints.len(),
        forall|j: int|
            0 <= j < fetched.hints.len() ==> #[trigger] fetched.hints[j]
                == comparison.new_hints[j]@,
        fetched.cached.len() == comparison.entries().len(),
        forall|c: int|
            0 <= c < fetched.cached.len() ==> #[trigger] fetched.cached[c] == (
                comparison.entries()[c].0,
                comparison.entries()[c].1@,
            ),
        forall|position: TextAnchor| #[trigger]
            fetched.in_range(position) == comparison.between(position),
{
    choose|fetched: FetchedHints| #[trigger]
        fetched.compares(
            comparison.range,
            comparison.buffer,
            bare_views(comparison.new_hints),
            cached_views(comparison.cached),
        ) && is_update_for(update, fetched, comparison.query, comparison.visible_hints)
}

/// An answer is for the excerpt and the version of the query, and removes or adds something.
pub proof fn law_update_is_for_the_query(comparison: Comparison, update: ExcerptHintsUpdate)
    requires
        comparison.tells(Some(update)),
    ensures
        update.excerpt_id == comparison.query.excerpt_id,
        update.cache_version == comparison.query.cache_version,
        update.remove_from_visible@.len() > 0 || update.remove_from_cache@.len() > 0
            || update.add_to_cache@.len() > 0,
{
    let fetched = lemma_behind(comparison, Some(update));
    assert(update@.excerpt_id == comparison.query.excerpt_id);
}

/// A fetched hint in the range is added, or the same hint is cached already and stays, whatever
/// the insertions and biases of the anchors and whatever the strategy.
pub proof fn law_hint_in_range_is_added_or_cached(
    comparison: Comparison,
    update: Option<ExcerptHintsUpdate>,
    j: int,
)
    requires
        comparison.tells(update),
        0 <= j < comparison.new_hints.len(),
        comparison.buffer.rank(comparison.range.start) <= comparison.buffer.rank(
            comparison.new_hints[j].position,
        ),
        comparison.buffer.rank(comparison.new_hints[j].position) <= comparison.buffer.rank(
            comparison.range.end,
        ),
    ensures
        ({
            ||| update is Some && exists|a: int|
                0 <= a < update->0.add_to_cache@.len() && (#[trigger] update->0.add_to_cache@[a])@
                    == comparison.new_hints[j]@
            ||| exists|c: int| #[trigger]
                comparison.same(j, c) && (update is Some
                    ==> !update->0.remove_from_cache@.contains(comparison.entries()[c].0)
                    && !update->0.remove_from_visible@.contains(comparison.entries()[c].0))
        }),
{
    let query = comparison.query;
    let fetched = lemma_behind(comparison, update);
    let hint = comparison.new_hints[j]@;
    assert(fetched.hints[j] == hint);
    assert(fetched.in_range(hint.position));
    if fetched.confirms(j) {
        lemma_found_in_bounds(fetched, j);
        let c = fetched.found[j]->0;
        let id = fetched.cached[c].0;
        assert(comparison.same(j, c));
        assert(fetched.confirmed(id));
        lemma_filtered_ids(fetched.cached, fetched.outdated_hint(query), id);
        let outdated = comparison.visible_hints.filter(fetched.outdated_inlay(query));
        if inlay_ids(outdated).contains(id) {
            let k = choose|k: int| 0 <= k < inlay_ids(outdated).len() && inlay_ids(outdated)[k]
                == id;
            assert(outdated.contains(outdated[k]));
            lemma_filter_contains_iff(
                comparison.visible_hints,
                fetched.outdated_inlay(query),
                outdated[k],
            );
        }
        if update is Some {
            assert(update->0@ == fetched.update(query, comparison.visible_hints));
        }
    } else {
        assert(fetched.is_new(j));
        lemma_added(fetched, fetched.hints.len() as int, hint);
        let added = fetched.added();
        let a = choose|a: int| 0 <= a < added.len() && added[a] == hint;
        assert(update is Some);
        assert(update->0@.add_to_cache == added);
        assert(update->0@.add_to_cache[a] == update->0.add_to_cache@[a]@);
    }
}

/// Only fetched hints in the range are added, and none twice.
pub proof fn law_only_fetched_hints_are_added(
    comparison: Comparison,
    update: ExcerptHintsUpdate,
    a: int,
)
    requires
        comparison.tells(Some(update)),
        0 <= a < update.add_to_cache@.len(),
    ensures
        exists|j: int|
            0 <= j < comparison.new_hints.len() && (#[trigger] comparison.new_hints[j])@
                == update.add_to_cache@[a]@,
        comparison.between(update.add_to_cache@[a].position),
        forall|b: int|
            0 <= b < update.add_to_cache@.len() && b != a ==> (
            #[trigger] update.add_to_cache@[b])@ != update.add_to_cache@[a]@,
{
    let fetched = lemma_behind(comparison, Some(update));
    let added = fetched.added();
    let hint = update.add_to_cache@[a]@;
    assert(update@.add_to_cache == added);
    assert(added[a] == hint);
    assert(added.contains(hint));
    lemma_added(fetched, fetched.hints.len() as int, hint);
    let j = choose|j: int|
        0 <= j < fetched.hints.len() && #[trigger] fetched.is_new(j) && fetched.hints[j] == hint;
    assert(comparison.new_hints[j]@ == hint);
    assert(fetched.in_range(hint.position));
    assert forall|b: int| 0 <= b < update.add_to_cache@.len() && b != a implies (
    #[trigger] update.add_to_cache@[b])@ != hint by {
        assert(added[b] == update.add_to_cache@[b]@);
    }
}

/// A query that is neither forced nor on a conflict removes nothing.
pub proof fn law_plain_query_removes_nothing(comparison: Comparison, update: ExcerptHintsUpdate)
    requires
        comparison.tells(Some(update)),
        comparison.query.invalidate == InvalidationStrategy::Never,
    ensures
        update.remove_from_visible@.len() == 0,
        update.remove_from_cache@.len() == 0,
{
    let fetched = lemma_behind(comparison, Some(update));
    let query = comparison.query;
    lemma_filter_none(
        comparison.visible_hints,
        fetched.outdated_inlay(query),
    );
    lemma_filter_none(fetched.cached, fetched.outdated_hint(query));
    assert(update@.remove_from_visible.len() == 0);
    assert(update@.remove_from_cache.len() == 0);
}

/// A query that is forced or on a conflict removes every inlay of its excerpt in the range,
/// unless a cached hint with its id is the same as a fetched hint in the range.
pub proof fn law_inlay_that_is_not_fetched_is_removed(
    comparison: Comparison,
    update: Option<ExcerptHintsUpdate>,
    i: int,
)
    requires
        comparison.tells(update),
        comparison.query.invalidate != InvalidationStrategy::Never,
        0 <= i < comparison.visible_hints.len(),
        comparison.visible_hints[i].position.excerpt_id == comparison.query.excerpt_id,
        comparison.between(comparison.visible_hints[i].position.text_anchor),
        forall|j: int, c: int| #[trigger]
            comparison.same(j, c) ==> comparison.entries()[c].0 != comparison.visible_hints[i].id,
    ensures
        update is Some,
        update->0.remove_from_visible@.contains(comparison.visible_hints[i].id),
{
    let query = comparison.query;
    let fetched = lemma_behind(comparison, update);
    let inlay = comparison.visible_hints[i];
    lemma_not_confirmed(comparison, fetched, inlay.id);
    let keep = fetched.outdated_inlay(query);
    assert(fetched.in_range(inlay.position.text_anchor));
    assert(keep(inlay));
    assert(comparison.visible_hints.contains(inlay));
    lemma_filter_contains_iff(comparison.visible_hints, keep, inlay);
    let removed = comparison.visible_hints.filter(keep);
    let k = choose|k: int| 0 <= k < removed.len() && removed[k] == inlay;
    assert(inlay_ids(removed)[k] == inlay.id);
    assert(fetched.update(query, comparison.visible_hints).remove_from_visible.len() > 0);
    assert(update->0@.remove_from_visible == inlay_ids(removed));
}

/// A query that is forced or on a conflict removes every cached hint in the range, unless a
/// cached hint with its id is the same as a fetched hint in the range.
pub proof fn law_cached_hint_that_is_not_fetched_is_removed(
    comparison: Comparison,
    update: Option<ExcerptHintsUpdate>,
    i: int,
)
    requires
        comparison.tells(update),
        comparison.query.invalidate != InvalidationStrategy::Never,
        0 <= i < comparison.entries().len(),
        comparison.between(comparison.entries()[i].1.position),
        forall|j: int, c: int| #[trigger]
            comparison.same(j, c) ==> comparison.entries()[c].0 != comparison.entries()[i].0,
    ensures
        update is Some,
        update->0.remove_from_cache@.contains(comparison.entries()[i].0),
{
    let query = comparison.query;
    let fetched = lemma_behind(comparison, update);
    let id = comparison.entries()[i].0;
    lemma_not_confirmed(comparison, fetched, id);
    assert(fetched.cached[i] == (id, comparison.entries()[i].1@));
    assert(fetched.in_range(fetched.cached[i].1.position));
    let outdated = fetched.outdated_hint(query);
    assert(outdated(fetched.cached[i]));
    lemma_filtered_ids(fetched.cached, outdated, id);
    assert(fetched.update(query, comparison.visible_hints).remove_from_cache.contains(id));
    assert(fetched.update(query, comparison.visible_hints).remove_from_cache.len() > 0);
}

proof fn lemma_not_confirmed(comparison: Comparison, fetched: FetchedHints, id: InlayId)
    requires
        fetched.well_searched(),
        fetched.hints.len() == comparison.new_hints.len(),
        forall|j: int|
            0 <= j < fetched.hints.len() ==> #[trigger] fetched.hints[j]
                == comparison.new_hints[j]@,
        fetched.cached.len() == comparison.entries().len(),
        forall|c: int|
            0 <= c < fetched.cached.len() ==> #[trigger] fetched.cached[c] == (
                comparison.entries()[c].0,
                comparison.entries()[c].1@,
            ),
        forall|position: TextAnchor| #[trigger]
            fetched.in_range(position) == comparison.between(position),
        forall|j: int, c: int| #[trigger]
            comparison.same(j, c) ==> comparison.entries()[c].0 != id,
    ensures
        !fetched.confirmed(id),
{
    if fetched.confirmed(id) {
        let j = choose|j: int|
            0 <= j < fetched.hints.len() && #[trigger] fetched.confirms(j)
                && fetched.cached[fetched.found[j]->0].0 == id;
        lemma_found_in_bounds(fetched, j);
        let c = fetched.found[j]->0;
        assert(fetched.hints[j] == comparison.new_hints[j]@);
        assert(fetched.in_range(comparison.new_hints[j].position));
        assert(comparison.same(j, c));
    }
}

/// A query that is forced or on a conflict removes only inlays of its excerpt in the range, as
/// often and in the order as they are shown.
pub proof fn law_only_inlays_in_range_are_removed(
    comparison: Comparison,
    update: ExcerptHintsUpdate,
)
    requires
        comparison.tells(Some(update)),
        comparison.query.invalidate != InvalidationStrategy::Never,
    ensures
        ({
            let removed = comparison.visible_hints.filter(
                |inlay: Inlay|
                    inlay.position.excerpt_id == comparison.query.excerpt_id && comparison.between(
                        inlay.position.text_anchor,
                    ) && update.remove_from_visible@.contains(inlay.id),
            );
            update.remove_from_visible@ == Seq::new(removed.len(), |i: int| removed[i].id)
        }),
{
    let query = comparison.query;
    let fetched = lemma_behind(comparison, Some(update));
    let shown = comparison.visible_hints;
    let outdated = fetched.outdated_inlay(query);
    let ids = update.remove_from_visible@;
    assert(update@.remove_from_visible == inlay_ids(shown.filter(outdated)));
    let keep = |inlay: Inlay|
        inlay.position.excerpt_id == comparison.query.excerpt_id && comparison.between(
            inlay.position.text_anchor,
        ) && update.remove_from_visible@.contains(inlay.id);
    assert forall|i: int| 0 <= i < shown.len() implies outdated(#[trigger] shown[i]) == keep(
        shown[i],
    ) by {
        let inlay = shown[i];
        assert(fetched.in_range(inlay.position.text_anchor) == comparison.between(
            inlay.position.text_anchor,
        ));
        if outdated(inlay) {
            assert(shown.contains(inlay));
            lemma_filter_contains_iff(shown, outdated, inlay);
            let k = choose|k: int|
                0 <= k < shown.filter(outdated).len() && shown.filter(outdated)[k] == inlay;
            assert(ids[k] == inlay.id);
        }
        if keep(inlay) {
            let k = choose|k: int| 0 <= k < ids.len() && ids[k] == inlay.id;
            let other = shown.filter(outdated)[k];
            assert(shown.filter(outdated).contains(other));
            lemma_filter_contains_iff(shown, outdated, other);
        }
    }
    lemma_same_filter(shown, outdated, keep);
    assert(ids =~= Seq::new(shown.filter(keep).len(), |i: int| shown.filter(keep)[i].id));
}

/// Only cached hints in the range are removed, and only by a query that is forced or on a
/// conflict.
pub proof fn law_only_cached_hints_in_range_are_removed(
    comparison: Comparison,
    update: ExcerptHintsUpdate,
    id: InlayId,
)
    requires
        comparison.tells(Some(update)),
        update.remove_from_cache@.contains(id),
    ensures
        comparison.query.invalidate != InvalidationStrategy::Never,
        exists|c: int|
            0 <= c < comparison.entries().len() && (#[trigger] comparison.entries()[c]).0 == id
                && comparison.between(comparison.entries()[c].1.position),
{
    let fetched = lemma_behind(comparison, Some(update));
    let outdated = fetched.outdated_hint(comparison.query);
    assert(update@.remove_from_cache.contains(id));
    lemma_filtered_ids(fetched.cached, outdated, id);
    let c = choose|c: int|
        0 <= c < fetched.cached.len() && (#[trigger] fetched.cached[c]).0 == id && outdated(
            fetched.cached[c],
        );
    assert(comparison.entries()[c].0 == id);
    assert(fetched.in_range(comparison.entries()[c].1.position));
}

/// Where the cached hints are in order, no two of them at the position of a fetched hint, a
/// cached hint that is fetched again is neither added nor removed, and no inlay with its id is.
pub proof fn law_cached_hint_that_is_fetched_stays(
    comparison: Comparison,
    update: ExcerptHintsUpdate,
    j: int,
    c: int,
)
    requires
        comparison.tells(Some(update)),
        comparison.cached_in_order(),
        comparison.same(j, c),
    ensures
        forall|a: int|
            0 <= a < update.add_to_cache@.len() ==> (#[trigger] update.add_to_cache@[a])@
                != comparison.new_hints[j]@,
        !update.remove_from_cache@.contains(comparison.entries()[c].0),
        !update.remove_from_visible@.contains(comparison.entries()[c].0),
{
    let query = comparison.query;
    let fetched = lemma_behind(comparison, Some(update));
    let hint = comparison.new_hints[j]@;
    let id = comparison.entries()[c].0;
    assert(fetched.hints[j] == hint);
    assert(fetched.cached[c] == (id, hint));
    assert(fetched.in_range(hint.position));
    assert(sorted_by_position(fetched.cached, &fetched.buffer)) by {
        assert forall|a: int, b: int| 0 <= a <= b < fetched.cached.len() implies #[trigger] hint_rank(
            &fetched.buffer,
            fetched.cached[a],
        ) <= #[trigger] hint_rank(&fetched.buffer, fetched.cached[b]) by {
            assert(comparison.buffer.rank(comparison.entries()[a].1.position)
                <= comparison.buffer.rank(comparison.entries()[b].1.position));
        }
    }
    assert(found_alone(fetched)) by {
        assert forall|a: int, b: int, l: int|
            0 <= a < fetched.cached.len() && 0 <= b < fetched.cached.len() && 0 <= l
                < fetched.hints.len() && a != b && fetched.in_range(
                (#[trigger] fetched.hints[l]).position,
            ) && hint_rank(&fetched.buffer, #[trigger] fetched.cached[a]) == fetched.buffer.rank(
                fetched.hints[l].position,
            ) implies hint_rank(&fetched.buffer, #[trigger] fetched.cached[b])
            != fetched.buffer.rank(fetched.hints[l].position) by {
            assert(comparison.between(comparison.new_hints[l].position));
            assert(comparison.buffer.rank(comparison.entries()[a].1.position)
                == comparison.buffer.rank(comparison.new_hints[l].position));
            assert(comparison.buffer.rank(comparison.entries()[b].1.position)
                != comparison.buffer.rank(comparison.new_hints[l].position));
        }
    }
    lemma_cached_is_confirmed(fetched, c, j);
    assert(fetched.confirmed(id));
    lemma_filtered_ids(fetched.cached, fetched.outdated_hint(query), id);
    assert(update@ == fetched.update(query, comparison.visible_hints));
    let outdated = comparison.visible_hints.filter(fetched.outdated_inlay(query));
    if inlay_ids(outdated).contains(id) {
        let k = choose|k: int| 0 <= k < inlay_ids(outdated).len() && inlay_ids(outdated)[k] == id;
        assert(outdated.contains(outdated[k]));
        lemma_filter_contains_iff(
            comparison.visible_hints,
            fetched.outdated_inlay(query),
            outdated[k],
        );
    }
    let added = fetched.added();
    lemma_added(fetched, fetched.hints.len() as int, hint);
    assert forall|a: int| 0 <= a < update.add_to_cache@.len() implies (
    #[trigger] update.add_to_cache@[a])@ != hint by {
        if update.add_to_cache@[a]@ == hint {
            assert(update@.add_to_cache[a] == hint);
            assert(added.contains(hint));
            let k = choose|k: int|
                0 <= k < fetched.hints.len() && #[trigger] fetched.is_new(k) && fetched.hints[k]
                    == hint;
            lemma_cached_is_confirmed(fetched, c, k);
        }
    }
}

/// Where the cached hints are in order and some are at the position of a fetched hint in the
/// range, one of them is found for all fetched hints there: those that are the same as it are not
/// added and it stays, and all others are added.
pub proof fn law_one_cached_hint_is_found_at_a_position(
    comparison: Comparison,
    update: Option<ExcerptHintsUpdate>,
    j: int,
    d: int,
)
    requires
        comparison.tells(update),
        forall|a: int, b: int|
            0 <= a <= b < comparison.entries().len() ==> comparison.buffer.rank(
                (#[trigger] comparison.entries()[a]).1.position,
            ) <= comparison.buffer.rank((#[trigger] comparison.entries()[b]).1.position),
        0 <= j < comparison.new_hints.len(),
        comparison.between(comparison.new_hints[j].position),
        0 <= d < comparison.entries().len(),
        comparison.buffer.rank(comparison.entries()[d].1.position) == comparison.buffer.rank(
            comparison.new_hints[j].position,
        ),
    ensures
        exists|c: int|
            0 <= c < comparison.entries().len() && comparison.buffer.rank(
                (#[trigger] comparison.entries()[c]).1.position,
            ) == comparison.buffer.rank(comparison.new_hints[j].position) && forall|l: int|
                0 <= l < comparison.new_hints.len() && comparison.buffer.rank(
                    (#[trigger] comparison.new_hints[l]).position,
                ) == comparison.buffer.rank(comparison.new_hints[j].position)
                    ==> is_treated_as_found(comparison, update, c, l),
{
    let query = comparison.query;
    let buffer = comparison.buffer;
    let fetched = lemma_behind(comparison, update);
    let rank = buffer.rank(comparison.new_hints[j].position);
    assert(fetched.hints[j] == comparison.new_hints[j]@);
    assert(sorted_by_position(fetched.cached, &fetched.buffer)) by {
        assert forall|a: int, b: int| 0 <= a <= b < fetched.cached.len() implies #[trigger] hint_rank(
            &fetched.buffer,
            fetched.cached[a],
        ) <= #[trigger] hint_rank(&fetched.buffer, fetched.cached[b]) by {
            assert(buffer.rank(comparison.entries()[a].1.position) <= buffer.rank(
                comparison.entries()[b].1.position,
            ));
        }
    }
    assert(hint_rank(&fetched.buffer, fetched.cached[d]) == rank);
    assert(fetched.found[j] is Some);
    lemma_found_in_bounds(fetched, j);
    let c = fetched.found[j]->0;
    let id = fetched.cached[c].0;
    assert(fetched.cached[c] == (comparison.entries()[c].0, comparison.entries()[c].1@));
    let whole = fetched.update(query, comparison.visible_hints);
    assert forall|l: int|
        0 <= l < comparison.new_hints.len() && buffer.rank(
            (#[trigger] comparison.new_hints[l]).position,
        ) == rank implies is_treated_as_found(comparison, update, c, l) by {
        let hint = comparison.new_hints[l]@;
        assert(fetched.hints[l] == hint);
        assert(fetched.found[l] == fetched.found[j]);
        assert(fetched.in_range(hint.position));
        lemma_added(fetched, fetched.hints.len() as int, hint);
        if comparison.entries()[c].1@ == hint {
            assert(fetched.confirms(l));
            assert(fetched.confirmed(id));
            lemma_filtered_ids(fetched.cached, fetched.outdated_hint(query), id);
            assert(!fetched.added().contains(hint)) by {
                if fetched.added().contains(hint) {
                    let m = choose|m: int|
                        0 <= m < fetched.hints.len() && #[trigger] fetched.is_new(m)
                            && fetched.hints[m] == hint;
                    assert(fetched.found[m] == fetched.found[j]);
                    assert(fetched.confirms(m));
                }
            }
            if update is Some {
                assert(update->0@ == whole);
                assert forall|a: int| 0 <= a < update->0.add_to_cache@.len() implies (
                #[trigger] update->0.add_to_cache@[a])@ != hint by {
                    assert(update->0@.add_to_cache[a] == update->0.add_to_cache@[a]@);
                    assert(fetched.added().contains(fetched.added()[a]));
                }
            }
        } else {
            assert(!fetched.confirms(l));
            assert(fetched.is_new(l));
            let added = fetched.added();
            assert(added.contains(hint));
            let a = choose|a: int| 0 <= a < added.len() && added[a] == hint;
            assert(whole.add_to_cache.len() > 0);
            assert(update is Some);
            assert(update->0@.add_to_cache[a] == update->0.add_to_cache@[a]@);
        }
    }
    assert(buffer.rank(comparison.entries()[c].1.position) == rank);
}

/// Whether the cached hint `c` is treated as the one that was found for the fetched hint `l`: if
/// they are the same, the fetched one is not added and the cached one stays; if not, the fetched
/// one is added.
pub open spec fn is_treated_as_found(
    comparison: Comparison,
    update: Option<ExcerptHintsUpdate>,
    c: int,
    l: int,
) -> bool {
    if comparison.entries()[c].1@ == comparison.new_hints[l]@ {
        update is Some ==> {
            &&& !update->0.remove_from_cache@.contains(comparison.entries()[c].0)
            &&& forall|a: int|
                0 <= a < update->0.add_to_cache@.len() ==> (
                #[trigger] update->0.add_to_cache@[a])@ != comparison.new_hints[l]@
        }
    } else {
        update is Some && exists|a: int|
            0 <= a < update->0.add_to_cache@.len() && (#[trigger] update->0.add_to_cache@[a])@
                == comparison.new_hints[l]@
    }
}

} // verus!
