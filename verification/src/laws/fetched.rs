//! What holds of the cache after fetched hints have been taken over.

use vstd::prelude::*;

use crate::anchor::{BufferSnapshot, ExcerptId, MultiBufferSnapshot};
use crate::cache::{not_removed, numbered, of_kinds, CacheView};
use crate::hint::{HintView, Inlay, InlayId};
use crate::laws::editor::{
    allowed_ids, allowed_inlays, can_look_up_all, can_look_up_shown, ids_below, ids_unique,
    in_cached_order, inlays_after, inserted_inlays, is_inlay_of, law_inlays_in_order_are_shown,
    lemma_filtered_ids, lemma_filtered_inlays, lemma_ids_after, lemma_look_up_shown,
    lemma_shown_iff_allowed, lemma_unique, shown_after, shows_at, shows_cached,
};
use crate::laws::kinds::{buffer_of, inlays_of};
use crate::order::{hint_rank, is_stable_sort, sorted_by_position};
use crate::query::ExcerptQuery;
use crate::sequences::{
    lemma_concat_contains, lemma_filter_contains_iff, lemma_filter_no_duplicates,
    lemma_filter_none,
};
use crate::updates::{hint_ids, inlay_ids, FetchedHints, UpdateView};

verus! {

pub(crate) proof fn lemma_sort_contains(
    before: Seq<(InlayId, HintView)>,
    after: Seq<(InlayId, HintView)>,
    buffer_snapshot: &BufferSnapshot,
    hint: (InlayId, HintView),
)
    requires
        is_stable_sort(before, after, buffer_snapshot),
    ensures
        after.contains(hint) <==> before.contains(hint),
{
    before.to_multiset_ensures();
    after.to_multiset_ensures();
    assert(before.contains(hint) <==> before.to_multiset().count(hint) > 0);
    assert(after.contains(hint) <==> after.to_multiset().count(hint) > 0);
}

/// The hints of the updated excerpt are those that were not removed and those that were added.
proof fn lemma_updated_contains(
    before: CacheView,
    after: CacheView,
    update: UpdateView,
    first_id: usize,
    buffer_snapshot: &BufferSnapshot,
    hint: (InlayId, HintView),
)
    requires
        before.updates_to(after, update, first_id, buffer_snapshot),
    ensures
        after.hints_of(update.excerpt_id).contains(hint) <==> {
            ||| before.hints_of(update.excerpt_id).contains(hint)
                && !update.remove_from_cache.contains(hint.0)
            ||| numbered(update.add_to_cache, first_id).contains(hint)
        },
{
    let e = update.excerpt_id;
    let kept = before.hints_of(e).filter(not_removed(update.remove_from_cache));
    lemma_sort_contains(
        before.updated_hints(update, first_id),
        after.hints_of(e),
        buffer_snapshot,
        hint,
    );
    lemma_concat_contains(kept, numbered(update.add_to_cache, first_id), hint);
    lemma_filter_contains_iff(
        before.hints_of(e),
        not_removed(update.remove_from_cache),
        hint,
    );
}

/// An update gives every hint that it adds an id of its own: no two cached hints have one id,
/// and all ids are below the next one to give.
pub proof fn law_update_keeps_ids_unique(
    before: CacheView,
    after: CacheView,
    update: UpdateView,
    first_id: usize,
    buffer_snapshot: &BufferSnapshot,
)
    requires
        before.updates_to(after, update, first_id, buffer_snapshot),
        first_id + update.add_to_cache.len() <= usize::MAX,
        ids_unique(before),
        ids_below(before, first_id as int),
    ensures
        ids_unique(after),
        ids_below(after, first_id + update.add_to_cache.len()),
{
    let e = update.excerpt_id;
    let old_hints = before.hints_of(e);
    let new_hints = after.hints_of(e);
    let added = numbered(update.add_to_cache, first_id);
    let unsorted = before.updated_hints(update, first_id);
    assert forall|other: ExcerptId| other != e implies #[trigger] after.hints_of(other)
        == before.hints_of(other) by {}
    assert forall|i: int| 0 <= i < new_hints.len() implies {
        ||| old_hints.contains(#[trigger] new_hints[i])
        ||| exists|k: int| 0 <= k < added.len() && added[k] == new_hints[i]
    } by {
        assert(new_hints.contains(new_hints[i]));
        lemma_updated_contains(before, after, update, first_id, buffer_snapshot, new_hints[i]);
    }
    assert(ids_below(after, first_id + update.add_to_cache.len())) by {
        assert forall|x: ExcerptId, i: int| 0 <= i < after.hints_of(x).len() implies {
            &&& (#[trigger] after.hints_of(x)[i]).0 is Hint
            &&& after.hints_of(x)[i].0->Hint_0 < first_id + update.add_to_cache.len()
        } by {
            if x == e {
                let hint = new_hints[i];
                if old_hints.contains(hint) {
                    let k = choose|k: int| 0 <= k < old_hints.len() && old_hints[k] == hint;
                    assert(before.hints_of(e)[k].0 is Hint);
                }
            } else {
                assert(before.hints_of(x)[i].0 is Hint);
            }
        }
    }
    // Within the excerpt: the ids of the kept hints differ, those of the added ones do, and
    // those are not below the first one given.
    assert(unsorted.no_duplicates()) by {
        assert forall|i: int, j: int|
            0 <= i < unsorted.len() && 0 <= j < unsorted.len() && i != j implies unsorted[i]
            != unsorted[j] by {
            lemma_different_ids(before, update, first_id, i, j);
        }
    }
    unsorted.lemma_multiset_has_no_duplicates();
    new_hints.lemma_multiset_has_no_duplicates_conv();
    assert(hint_ids(new_hints).no_duplicates()) by {
        assert forall|i: int, j: int|
            0 <= i < new_hints.len() && 0 <= j < new_hints.len() && i != j implies hint_ids(
            new_hints,
        )[i] != hint_ids(new_hints)[j] by {
            let a = new_hints[i];
            let b = new_hints[j];
            assert(new_hints.contains(a) && new_hints.contains(b));
            lemma_sort_contains(unsorted, new_hints, buffer_snapshot, a);
            lemma_sort_contains(unsorted, new_hints, buffer_snapshot, b);
            let k = choose|k: int| 0 <= k < unsorted.len() && unsorted[k] == a;
            let l = choose|l: int| 0 <= l < unsorted.len() && unsorted[l] == b;
            assert(a != b);
            lemma_different_ids(before, update, first_id, k, l);
        }
    }
    assert(ids_unique(after)) by {
        assert forall|x: ExcerptId| hint_ids(#[trigger] after.hints_of(x)).no_duplicates() by {
            if x != e {
                assert(hint_ids(before.hints_of(x)).no_duplicates());
            }
        }
        assert forall|a: ExcerptId, b: ExcerptId, i: int, j: int|
            a != b && 0 <= i < after.hints_of(a).len() && 0 <= j < after.hints_of(b).len() implies (
        #[trigger] after.hints_of(a)[i]).0 != (#[trigger] after.hints_of(b)[j]).0 by {
            lemma_other_excerpt(before, after, update, first_id, buffer_snapshot, a, b, i, j);
        }
    }
}

proof fn lemma_different_ids(
    before: CacheView,
    update: UpdateView,
    first_id: usize,
    i: int,
    j: int,
)
    requires
        first_id + update.add_to_cache.len() <= usize::MAX,
        ids_unique(before),
        ids_below(before, first_id as int),
        0 <= i < before.updated_hints(update, first_id).len(),
        0 <= j < before.updated_hints(update, first_id).len(),
        i != j,
    ensures
        before.updated_hints(update, first_id)[i].0 != before.updated_hints(update, first_id)[j].0,
{
    let e = update.excerpt_id;
    let old_hints = before.hints_of(e);
    let keep = not_removed(update.remove_from_cache);
    let kept = old_hints.filter(keep);
    let unsorted = before.updated_hints(update, first_id);
    assert(hint_ids(old_hints).no_duplicates());
    assert(old_hints.no_duplicates()) by {
        assert forall|a: int, b: int|
            0 <= a < old_hints.len() && 0 <= b < old_hints.len() && a != b implies old_hints[a]
            != old_hints[b] by {
            assert(hint_ids(old_hints)[a] != hint_ids(old_hints)[b]);
        }
    }
    lemma_filter_no_duplicates(old_hints, keep);
    if i < kept.len() {
        assert(kept.contains(kept[i]));
        lemma_filter_contains_iff(old_hints, keep, kept[i]);
        let a = choose|a: int| 0 <= a < old_hints.len() && old_hints[a] == kept[i];
        assert(before.hints_of(e)[a].0 is Hint);
        if j < kept.len() {
            assert(kept.contains(kept[j]));
            lemma_filter_contains_iff(old_hints, keep, kept[j]);
            let b = choose|b: int| 0 <= b < old_hints.len() && old_hints[b] == kept[j];
            assert(kept[i] != kept[j]);
            assert(hint_ids(old_hints)[a] != hint_ids(old_hints)[b]);
        }
    } else if j < kept.len() {
        assert(kept.contains(kept[j]));
        lemma_filter_contains_iff(old_hints, keep, kept[j]);
        let b = choose|b: int| 0 <= b < old_hints.len() && old_hints[b] == kept[j];
        assert(before.hints_of(e)[b].0 is Hint);
    }
}

proof fn lemma_other_excerpt(
    before: CacheView,
    after: CacheView,
    update: UpdateView,
    first_id: usize,
    buffer_snapshot: &BufferSnapshot,
    a: ExcerptId,
    b: ExcerptId,
    i: int,
    j: int,
)
    requires
        before.updates_to(after, update, first_id, buffer_snapshot),
        first_id + update.add_to_cache.len() <= usize::MAX,
        ids_unique(before),
        ids_below(before, first_id as int),
        a != b,
        0 <= i < after.hints_of(a).len(),
        0 <= j < after.hints_of(b).len(),
    ensures
        after.hints_of(a)[i].0 != after.hints_of(b)[j].0,
{
    let e = update.excerpt_id;
    let x = after.hints_of(a)[i];
    let y = after.hints_of(b)[j];
    assert(after.hints_of(a).contains(x) && after.hints_of(b).contains(y));
    if a == e {
        lemma_updated_contains(before, after, update, first_id, buffer_snapshot, x);
        assert(after.hints_of(b) == before.hints_of(b));
        assert(before.hints_of(b)[j].0 is Hint);
        if before.hints_of(e).contains(x) {
            let k = choose|k: int| 0 <= k < before.hints_of(e).len() && before.hints_of(e)[k] == x;
            assert(before.hints_of(e)[k].0 != before.hints_of(b)[j].0);
        }
    } else if b == e {
        lemma_updated_contains(before, after, update, first_id, buffer_snapshot, y);
        assert(after.hints_of(a) == before.hints_of(a));
        assert(before.hints_of(a)[i].0 is Hint);
        if before.hints_of(e).contains(y) {
            let k = choose|k: int| 0 <= k < before.hints_of(e).len() && before.hints_of(e)[k] == y;
            assert(before.hints_of(a)[i].0 != before.hints_of(e)[k].0);
        }
    } else {
        assert(before.hints_of(a)[i].0 != before.hints_of(b)[j].0);
    }
}

/// Whether the hints that fetched hints were compared with are, in their range, those that the
/// cache has for the excerpt. Outside the range they may differ: hints for other ranges of the
/// excerpt may have been taken over since.
pub open spec fn compared_with_cached(
    cache: CacheView,
    fetched: FetchedHints,
    excerpt_id: ExcerptId,
) -> bool {
    &&& hint_ids(fetched.cached).no_duplicates()
    &&& forall|hint: (InlayId, HintView)|
        fetched.in_range(hint.1.position) ==> (#[trigger] fetched.cached.contains(hint)
            <==> cache.hints_of(excerpt_id).contains(hint))
}

/// Hints that were compared with all that is cached for the excerpt were so in their range.
pub proof fn law_comparison_with_all_cached(
    cache: CacheView,
    fetched: FetchedHints,
    excerpt_id: ExcerptId,
)
    requires
        ids_unique(cache),
        fetched.cached == cache.hints_of(excerpt_id),
    ensures
        compared_with_cached(cache, fetched, excerpt_id),
{
}

/// Whether `after` is the cache after hints that were fetched for an excerpt have been
/// compared with those that `before` has for it in their range, and the result has been taken
/// over.
pub open spec fn takes_over(
    before: CacheView,
    after: CacheView,
    fetched: FetchedHints,
    query: ExcerptQuery,
    visible_hints: Seq<Inlay>,
    first_id: usize,
) -> bool {
    &&& compared_with_cached(before, fetched, query.excerpt_id)
    &&& fetched.well_searched()
    &&& before.updates_to(after, fetched.update(query, visible_hints), first_id, &fetched.buffer)
}

/// Whether the cache has this hint for the excerpt.
pub open spec fn caches(cache: CacheView, excerpt_id: ExcerptId, hint: HintView) -> bool {
    exists|i: int|
        0 <= i < cache.hints_of(excerpt_id).len() && (#[trigger] cache.hints_of(
            excerpt_id,
        )[i]).1 == hint
}

pub(crate) proof fn lemma_added(fetched: FetchedHints, n: int, hint: HintView)
    requires
        0 <= n <= fetched.hints.len(),
    ensures
        fetched.added_by_first(n).no_duplicates(),
        fetched.added_by_first(n).contains(hint) <==> exists|j: int|
            0 <= j < n && #[trigger] fetched.is_new(j) && fetched.hints[j] == hint,
    decreases n,
{
    if n > 0 {
        let last = fetched.hints[n - 1];
        let rest = fetched.added_by_first(n - 1);
        lemma_added(fetched, n - 1, hint);
        let added = fetched.added_by_first(n);
        if fetched.is_new(n - 1) && !rest.contains(last) {
            assert(added[rest.len() as int] == last);
            assert forall|i: int, j: int|
                0 <= i < added.len() && 0 <= j < added.len() && i != j implies added[i]
                != added[j] by {
                if i < rest.len() {
                    assert(rest.contains(rest[i]));
                }
                if j < rest.len() {
                    assert(rest.contains(rest[j]));
                }
            }
            if rest.contains(hint) {
                let i = choose|i: int| 0 <= i < rest.len() && rest[i] == hint;
                assert(added[i] == hint);
            }
            if added.contains(hint) && hint != last {
                let i = choose|i: int| 0 <= i < added.len() && added[i] == hint;
                assert(rest[i] == hint);
            }
        } else if fetched.is_new(n - 1) && hint == last {
            assert(rest.contains(hint));
        }
        if exists|j: int| 0 <= j < n && #[trigger] fetched.is_new(j) && fetched.hints[j] == hint {
            let j = choose|j: int|
                0 <= j < n && #[trigger] fetched.is_new(j) && fetched.hints[j] == hint;
            if j < n - 1 {
                assert(rest.contains(hint));
            }
        }
    }
}

proof fn lemma_numbered_contains(hints: Seq<HintView>, first_id: usize, hint: (InlayId, HintView))
    ensures
        numbered(hints, first_id).contains(hint) ==> hints.contains(hint.1),
        forall|k: int|
            0 <= k < hints.len() ==> numbered(hints, first_id).contains(
                (InlayId::Hint((first_id + k) as usize), #[trigger] hints[k]),
            ),
{
    let all = numbered(hints, first_id);
    if all.contains(hint) {
        let k = choose|k: int| 0 <= k < all.len() && all[k] == hint;
        assert(hints[k] == hint.1);
    }
    assert forall|k: int| 0 <= k < hints.len() implies all.contains(
        (InlayId::Hint((first_id + k) as usize), #[trigger] hints[k]),
    ) by {
        assert(all[k] == (InlayId::Hint((first_id + k) as usize), hints[k]));
    }
}

/// A cached hint is removed exactly if the query invalidates, it lies in the range, and no
/// fetched hint confirms it.
proof fn lemma_removed_iff_outdated(
    before: CacheView,
    fetched: FetchedHints,
    query: ExcerptQuery,
    visible_hints: Seq<Inlay>,
    i: int,
)
    requires
        compared_with_cached(before, fetched, query.excerpt_id),
        ids_unique(before),
        0 <= i < before.hints_of(query.excerpt_id).len(),
    ensures
        fetched.update(query, visible_hints).remove_from_cache.contains(
            before.hints_of(query.excerpt_id)[i].0,
        ) <==> fetched.outdated_hint(query)(before.hints_of(query.excerpt_id)[i]),
{
    let outdated = fetched.outdated_hint(query);
    let cached = before.hints_of(query.excerpt_id);
    let hint = cached[i];
    lemma_filtered_ids(fetched.cached, outdated, hint.0);
    if hint_ids(fetched.cached.filter(outdated)).contains(hint.0) {
        let k = choose|k: int|
            0 <= k < fetched.cached.len() && (#[trigger] fetched.cached[k]).0 == hint.0
                && outdated(fetched.cached[k]);
        assert(fetched.cached.contains(fetched.cached[k]));
        let l = choose|l: int| 0 <= l < cached.len() && cached[l] == fetched.cached[k];
        lemma_unique(before, query.excerpt_id, i, query.excerpt_id, l);
    }
    if outdated(hint) {
        assert(cached.contains(hint));
        assert(fetched.cached.contains(hint));
        let k = choose|k: int| 0 <= k < fetched.cached.len() && fetched.cached[k] == hint;
        assert(fetched.cached[k].0 == hint.0);
    }
}

/// What is cached for the excerpt after fetched hints have been taken over: every cached hint
/// that was not outdated, and every fetched hint that was new.
proof fn lemma_cached_after(
    before: CacheView,
    after: CacheView,
    fetched: FetchedHints,
    query: ExcerptQuery,
    visible_hints: Seq<Inlay>,
    first_id: usize,
    hint: (InlayId, HintView),
)
    requires
        takes_over(before, after, fetched, query, visible_hints, first_id),
        ids_unique(before),
    ensures
        after.hints_of(query.excerpt_id).contains(hint) <==> {
            ||| before.hints_of(query.excerpt_id).contains(hint) && !fetched.outdated_hint(query)(
                hint,
            )
            ||| numbered(fetched.added(), first_id).contains(hint)
        },
{
    let update = fetched.update(query, visible_hints);
    let cached = before.hints_of(query.excerpt_id);
    lemma_updated_contains(before, after, update, first_id, &fetched.buffer, hint);
    if cached.contains(hint) {
        let i = choose|i: int| 0 <= i < cached.len() && cached[i] == hint;
        lemma_removed_iff_outdated(before, fetched, query, visible_hints, i);
    }
}

/// Two hints with one id that fetched hints were compared with are one hint.
proof fn lemma_compared_once(fetched: FetchedHints, i: int, k: int)
    requires
        hint_ids(fetched.cached).no_duplicates(),
        0 <= i < fetched.cached.len(),
        0 <= k < fetched.cached.len(),
        fetched.cached[i].0 == fetched.cached[k].0,
    ensures
        i == k,
{
    let ids = hint_ids(fetched.cached);
    assert(ids[i] == ids[k]);
}

proof fn lemma_caches_iff_contains(cache: CacheView, excerpt_id: ExcerptId, hint: HintView)
    ensures
        caches(cache, excerpt_id, hint) <==> exists|id: InlayId| #[trigger]
            cache.hints_of(excerpt_id).contains((id, hint)),
{
    let hints = cache.hints_of(excerpt_id);
    if caches(cache, excerpt_id, hint) {
        let i = choose|i: int| 0 <= i < hints.len() && (#[trigger] hints[i]).1 == hint;
        assert(hints[i] == (hints[i].0, hint));
        assert(hints.contains((hints[i].0, hint)));
    }
    if exists|id: InlayId| #[trigger] hints.contains((id, hint)) {
        let id = choose|id: InlayId| #[trigger] hints.contains((id, hint));
        let i = choose|i: int| 0 <= i < hints.len() && hints[i] == (id, hint);
        assert(cache.hints_of(excerpt_id)[i].1 == hint);
    }
}

/// After fetched hints have been taken over, the hints that are cached in their range are
/// exactly the fetched ones, if the query invalidates; if it does not, they are added to those
/// that were cached there.
pub proof fn law_range_holds_fetched_hints(
    before: CacheView,
    after: CacheView,
    fetched: FetchedHints,
    query: ExcerptQuery,
    visible_hints: Seq<Inlay>,
    first_id: usize,
    hint: HintView,
)
    requires
        takes_over(before, after, fetched, query, visible_hints, first_id),
        ids_unique(before),
        fetched.in_range(hint.position),
    ensures
        query.invalidate.spec_invalidates() ==> (caches(after, query.excerpt_id, hint)
            <==> fetched.hints.contains(hint)),
        !query.invalidate.spec_invalidates() ==> (caches(after, query.excerpt_id, hint) <==> caches(
            before,
            query.excerpt_id,
            hint,
        ) || fetched.hints.contains(hint)),
{
    let e = query.excerpt_id;
    let cached = fetched.cached;
    let outdated = fetched.outdated_hint(query);
    lemma_caches_iff_contains(after, e, hint);
    lemma_caches_iff_contains(before, e, hint);
    lemma_added(fetched, fetched.hints.len() as int, hint);
    if caches(after, e, hint) {
        let id = choose|id: InlayId| #[trigger] after.hints_of(e).contains((id, hint));
        lemma_cached_after(before, after, fetched, query, visible_hints, first_id, (id, hint));
        lemma_numbered_contains(fetched.added(), first_id, (id, hint));
        if before.hints_of(e).contains((id, hint)) && !outdated((id, hint)) {
            assert(caches(before, e, hint));
            assert(cached.contains((id, hint)));
            if query.invalidate.spec_invalidates() {
                let i = choose|i: int| 0 <= i < cached.len() && cached[i] == (id, hint);
                let j = choose|j: int|
                    0 <= j < fetched.hints.len() && #[trigger] fetched.confirms(j)
                        && cached[fetched.found[j]->0].0 == id;
                lemma_found_in_bounds(fetched, j);
                lemma_compared_once(fetched, i, fetched.found[j]->0);
                assert(fetched.hints[j] == hint);
            }
        } else {
            let j = choose|j: int|
                0 <= j < fetched.hints.len() && #[trigger] fetched.is_new(j) && fetched.hints[j]
                    == hint;
            assert(fetched.hints[j] == hint);
        }
    }
    if fetched.hints.contains(hint) {
        let j = choose|j: int| 0 <= j < fetched.hints.len() && fetched.hints[j] == hint;
        if fetched.confirms(j) {
            lemma_found_in_bounds(fetched, j);
            let found = cached[fetched.found[j]->0];
            assert(fetched.confirmed(found.0));
            assert(cached.contains(found));
            lemma_cached_after(before, after, fetched, query, visible_hints, first_id, found);
            assert(found == (found.0, hint));
            assert(after.hints_of(e).contains((found.0, hint)));
        } else {
            assert(fetched.is_new(j));
            let added = fetched.added();
            assert(added.contains(hint));
            let k = choose|k: int| 0 <= k < added.len() && added[k] == hint;
            let id = InlayId::Hint((first_id + k) as usize);
            lemma_numbered_contains(added, first_id, (id, hint));
            lemma_cached_after(before, after, fetched, query, visible_hints, first_id, (id, hint));
            assert(after.hints_of(e).contains((id, hint)));
        }
    }
    if !query.invalidate.spec_invalidates() && caches(before, e, hint) {
        let id = choose|id: InlayId| #[trigger] before.hints_of(e).contains((id, hint));
        lemma_cached_after(before, after, fetched, query, visible_hints, first_id, (id, hint));
        assert(after.hints_of(e).contains((id, hint)));
    }
}

pub(crate) proof fn lemma_found_in_bounds(fetched: FetchedHints, j: int)
    requires
        fetched.well_searched(),
        0 <= j < fetched.hints.len(),
        fetched.found[j] is Some,
    ensures
        0 <= fetched.found[j]->0 < fetched.cached.len(),
        hint_rank(&fetched.buffer, fetched.cached[fetched.found[j]->0]) == fetched.buffer.rank(
            fetched.hints[j].position,
        ),
{
}

/// Taking over fetched hints leaves the hints outside their range as they are, with their ids,
/// and all hints of other excerpts.
pub proof fn law_hints_outside_range_stay(
    before: CacheView,
    after: CacheView,
    fetched: FetchedHints,
    query: ExcerptQuery,
    visible_hints: Seq<Inlay>,
    first_id: usize,
    hint: (InlayId, HintView),
    other: ExcerptId,
)
    requires
        takes_over(before, after, fetched, query, visible_hints, first_id),
        ids_unique(before),
        !fetched.in_range(hint.1.position),
        other != query.excerpt_id,
    ensures
        after.hints_of(query.excerpt_id).contains(hint) <==> before.hints_of(
            query.excerpt_id,
        ).contains(hint),
        after.hints_of(other) == before.hints_of(other),
{
    lemma_cached_after(before, after, fetched, query, visible_hints, first_id, hint);
    lemma_numbered_contains(fetched.added(), first_id, hint);
    lemma_added(fetched, fetched.hints.len() as int, hint.1);
}

/// Whether no hint stands twice in the sequence, whatever its ids.
pub open spec fn hints_distinct(hints: Seq<(InlayId, HintView)>) -> bool {
    forall|i: int, j: int|
        0 <= i < hints.len() && 0 <= j < hints.len() && i != j ==> (#[trigger] hints[i]).1 != (
        #[trigger] hints[j]).1
}

/// Whether no two cached hints stand at the position of a fetched hint in the range.
pub open spec fn found_alone(fetched: FetchedHints) -> bool {
    forall|i: int, k: int, j: int|
        0 <= i < fetched.cached.len() && 0 <= k < fetched.cached.len() && 0 <= j
            < fetched.hints.len() && i != k && fetched.in_range(
            (#[trigger] fetched.hints[j]).position,
        ) && hint_rank(&fetched.buffer, #[trigger] fetched.cached[i]) == fetched.buffer.rank(
            fetched.hints[j].position,
        ) ==> hint_rank(&fetched.buffer, #[trigger] fetched.cached[k]) != fetched.buffer.rank(
            fetched.hints[j].position,
        )
}

/// Where hints are in order and no two are cached at the position of a fetched hint, one that
/// is cached confirms it.
pub(crate) proof fn lemma_cached_is_confirmed(fetched: FetchedHints, i: int, j: int)
    requires
        fetched.well_searched(),
        sorted_by_position(fetched.cached, &fetched.buffer),
        found_alone(fetched),
        0 <= i < fetched.cached.len(),
        0 <= j < fetched.hints.len(),
        fetched.hints[j] == fetched.cached[i].1,
        fetched.in_range(fetched.hints[j].position),
    ensures
        fetched.confirms(j),
        fetched.found[j] == Some(i),
{
    let hint = fetched.hints[j];
    assert(hint_rank(&fetched.buffer, fetched.cached[i]) == fetched.buffer.rank(hint.position));
    match fetched.found[j] {
        Some(k) => {
            if k != i {
                assert(hint_rank(&fetched.buffer, fetched.cached[k]) != hint_rank(
                    &fetched.buffer,
                    fetched.cached[i],
                ));
            }
        },
        None => {},
    }
}

/// However often a hint is fetched, it is cached once.
///
/// Where the query does not invalidate, the cached hints have to be in order, no two of them
/// at the position of a fetched hint.
pub proof fn law_hints_are_cached_once(
    before: CacheView,
    after: CacheView,
    fetched: FetchedHints,
    query: ExcerptQuery,
    visible_hints: Seq<Inlay>,
    first_id: usize,
)
    requires
        takes_over(before, after, fetched, query, visible_hints, first_id),
        first_id + fetched.added().len() <= usize::MAX,
        ids_unique(before),
        ids_below(before, first_id as int),
        hints_distinct(before.hints_of(query.excerpt_id)),
        query.invalidate.spec_invalidates() || {
            &&& sorted_by_position(fetched.cached, &fetched.buffer)
            &&& found_alone(fetched)
        },
    ensures
        hints_distinct(after.hints_of(query.excerpt_id)),
{
    let e = query.excerpt_id;
    let update = fetched.update(query, visible_hints);
    let cached = before.hints_of(e);
    let hints = after.hints_of(e);
    law_update_keeps_ids_unique(before, after, update, first_id, &fetched.buffer);
    assert forall|i: int, j: int|
        0 <= i < hints.len() && 0 <= j < hints.len() && i != j implies (#[trigger] hints[i]).1 != (
    #[trigger] hints[j]).1 by {
        if hints[i].1 == hints[j].1 {
            assert(hint_ids(hints)[i] != hint_ids(hints)[j]);
            assert(hints.contains(hints[i]) && hints.contains(hints[j]));
            lemma_cached_after(before, after, fetched, query, visible_hints, first_id, hints[i]);
            lemma_cached_after(before, after, fetched, query, visible_hints, first_id, hints[j]);
            lemma_added(fetched, fetched.hints.len() as int, hints[i].1);
            let added = numbered(fetched.added(), first_id);
            let kept_i = cached.contains(hints[i]) && !fetched.outdated_hint(query)(hints[i]);
            let kept_j = cached.contains(hints[j]) && !fetched.outdated_hint(query)(hints[j]);
            if kept_i && kept_j {
                let k = choose|k: int| 0 <= k < cached.len() && cached[k] == hints[i];
                let l = choose|l: int| 0 <= l < cached.len() && cached[l] == hints[j];
                assert(before.hints_of(e)[k].1 != before.hints_of(e)[l].1);
            } else if !kept_i && !kept_j {
                let k = choose|k: int| 0 <= k < added.len() && added[k] == hints[i];
                let l = choose|l: int| 0 <= l < added.len() && added[l] == hints[j];
                assert(fetched.added()[k] == fetched.added()[l]);
            } else if kept_i {
                lemma_kept_is_not_added(before, fetched, query, first_id, hints[i], hints[j]);
            } else {
                lemma_kept_is_not_added(before, fetched, query, first_id, hints[j], hints[i]);
            }
        }
    }
}

proof fn lemma_kept_is_not_added(
    before: CacheView,
    fetched: FetchedHints,
    query: ExcerptQuery,
    first_id: usize,
    kept: (InlayId, HintView),
    added: (InlayId, HintView),
)
    requires
        compared_with_cached(before, fetched, query.excerpt_id),
        fetched.well_searched(),
        before.hints_of(query.excerpt_id).contains(kept),
        !fetched.outdated_hint(query)(kept),
        numbered(fetched.added(), first_id).contains(added),
        query.invalidate.spec_invalidates() || {
            &&& sorted_by_position(fetched.cached, &fetched.buffer)
            &&& found_alone(fetched)
        },
    ensures
        kept.1 != added.1,
{
    let hint = added.1;
    lemma_numbered_contains(fetched.added(), first_id, added);
    lemma_added(fetched, fetched.hints.len() as int, hint);
    let j = choose|j: int|
        0 <= j < fetched.hints.len() && #[trigger] fetched.is_new(j) && fetched.hints[j] == hint;
    if kept.1 == hint {
        assert(fetched.cached.contains(kept));
    }
    let i = choose|i: int| 0 <= i < fetched.cached.len() && fetched.cached[i] == kept;
    if kept.1 != hint {
    } else if query.invalidate.spec_invalidates() {
        assert(fetched.confirmed(kept.0));
        let k = choose|k: int|
            0 <= k < fetched.hints.len() && #[trigger] fetched.confirms(k)
                && fetched.cached[fetched.found[k]->0].0 == kept.0;
        lemma_found_in_bounds(fetched, k);
        lemma_compared_once(fetched, i, fetched.found[k]->0);
        assert(fetched.hints[k] == fetched.hints[j]);
        assert(fetched.found[k] == fetched.found[j]);
        assert(fetched.confirms(j));
    } else {
        lemma_cached_is_confirmed(fetched, i, j);
    }
}

/// Hints that are cached already change nothing: where the cached hints are in order, no two of
/// them at the position of a fetched hint, hints of which each one in the range is cached bring
/// no update.
///
/// Where the query invalidates, also each hint that is cached in the range has to be fetched,
/// and the editor has to show the cached hints of the allowed kinds.
pub proof fn law_same_hints_change_nothing(
    cache: CacheView,
    fetched: FetchedHints,
    query: ExcerptQuery,
    visible_hints: Seq<Inlay>,
    multi_buffer: &MultiBufferSnapshot,
)
    requires
        fetched.cached == cache.hints_of(query.excerpt_id),
        fetched.well_searched(),
        sorted_by_position(fetched.cached, &fetched.buffer),
        found_alone(fetched),
        forall|hint: HintView| #[trigger]
            fetched.in_range(hint.position) && fetched.hints.contains(hint) ==> caches(
                cache,
                query.excerpt_id,
                hint,
            ),
        query.invalidate.spec_invalidates() ==> {
            &&& shows_cached(cache, visible_hints, multi_buffer)
            &&& forall|hint: HintView| #[trigger]
                fetched.in_range(hint.position) && caches(cache, query.excerpt_id, hint)
                    ==> fetched.hints.contains(hint)
        },
    ensures
        !fetched.update(query, visible_hints).changes_anything(),
{
    let e = query.excerpt_id;
    let cached = fetched.cached;
    let update = fetched.update(query, visible_hints);
    if query.invalidate.spec_invalidates() {
        assert forall|i: int| 0 <= i < cached.len() && fetched.in_range(
            (#[trigger] cached[i]).1.position,
        ) implies fetched.confirmed(cached[i].0) by {
            let hint = cached[i].1;
            assert(cache.hints_of(e)[i].1 == hint);
            assert(caches(cache, e, hint));
            assert(fetched.hints.contains(hint));
            let j = choose|j: int| 0 <= j < fetched.hints.len() && fetched.hints[j] == hint;
            lemma_cached_is_confirmed(fetched, i, j);
        }
        lemma_shown_iff_allowed(cache, visible_hints, multi_buffer);
        assert forall|k: int| 0 <= k < visible_hints.len() implies !fetched.outdated_inlay(query)(
            #[trigger] visible_hints[k],
        ) by {
            let inlay = visible_hints[k];
            assert(visible_hints.contains(inlay));
            if inlay.position.excerpt_id == e {
                let i = choose|i: int| shows_at(cache, multi_buffer, inlay, i);
                assert(cached[i].0 == inlay.id);
            }
        }
    }
    lemma_filter_none(cached, fetched.outdated_hint(query));
    lemma_filter_none(visible_hints, fetched.outdated_inlay(query));
    if fetched.added().len() > 0 {
        let hint = fetched.added()[0];
        lemma_added(fetched, fetched.hints.len() as int, hint);
        assert(fetched.added().contains(hint));
        let j = choose|j: int|
            0 <= j < fetched.hints.len() && #[trigger] fetched.is_new(j) && fetched.hints[j]
                == hint;
        assert(fetched.hints.contains(hint));
        assert(fetched.in_range(hint.position));
        let i = choose|i: int|
            0 <= i < cache.hints_of(e).len() && (#[trigger] cache.hints_of(e)[i]).1 == hint;
        lemma_cached_is_confirmed(fetched, i, j);
    }
}

/// Hints that have been taken over change nothing when they are fetched again, whatever the
/// strategy, where no two hints are cached at the position of one of them by then.
///
/// The second query may only invalidate if the first one did, and the editor then has to show
/// the cached hints of the allowed kinds.
pub proof fn law_hints_fetched_again_change_nothing(
    before: CacheView,
    after: CacheView,
    fetched: FetchedHints,
    query: ExcerptQuery,
    visible_hints: Seq<Inlay>,
    first_id: usize,
    again: FetchedHints,
    query_again: ExcerptQuery,
    visible_again: Seq<Inlay>,
    multi_buffer: &MultiBufferSnapshot,
)
    requires
        takes_over(before, after, fetched, query, visible_hints, first_id),
        ids_unique(before),
        query_again.excerpt_id == query.excerpt_id,
        again.compares(
            fetched.range,
            fetched.buffer,
            fetched.hints,
            after.hints_of(query.excerpt_id),
        ),
        found_alone(again),
        query_again.invalidate.spec_invalidates() ==> query.invalidate.spec_invalidates()
            && shows_cached(after, visible_again, multi_buffer),
    ensures
        !again.update(query_again, visible_again).changes_anything(),
{
    assert forall|hint: HintView| #[trigger] again.in_range(hint.position) implies {
        &&& again.hints.contains(hint) ==> caches(after, query.excerpt_id, hint)
        &&& query.invalidate.spec_invalidates() && caches(after, query.excerpt_id, hint)
            ==> again.hints.contains(hint)
    } by {
        assert(fetched.in_range(hint.position));
        law_range_holds_fetched_hints(
            before,
            after,
            fetched,
            query,
            visible_hints,
            first_id,
            hint,
        );
    }
    law_same_hints_change_nothing(after, again, query_again, visible_again, multi_buffer);
}

/// Where the editor shows the cached hints of the allowed kinds, it still does so after it has
/// made the change that fetched hints ask for: it shows inlays exactly for those hints, with
/// their ids and at their positions. If it keeps the inlays of each excerpt in the order of the
/// cached hints, what holds before the change holds after it, where no two hints have one id.
///
/// The inlays that the fetched hints were compared with have to be those that the editor shows
/// in their range; outside it the editor may have changed since.
pub proof fn law_update_is_shown(
    before: CacheView,
    after: CacheView,
    fetched: FetchedHints,
    query: ExcerptQuery,
    compared_inlays: Seq<Inlay>,
    visible_hints: Seq<Inlay>,
    first_id: usize,
    multi_buffer: &MultiBufferSnapshot,
)
    requires
        takes_over(before, after, fetched, query, compared_inlays, first_id),
        ids_unique(before),
        shows_cached(before, visible_hints, multi_buffer),
        forall|inlay: Inlay|
            inlay.position.excerpt_id == query.excerpt_id && fetched.in_range(
                inlay.position.text_anchor,
            ) ==> (#[trigger] compared_inlays.contains(inlay) <==> visible_hints.contains(inlay)),
    ensures
        ({
            let splice = before.update_splice(
                fetched.update(query, compared_inlays),
                first_id,
                multi_buffer,
            );
            &&& inlays_after(visible_hints, splice) == allowed_inlays(after, multi_buffer)
            &&& shown_after(visible_hints, splice) == allowed_ids(after)
            &&& ids_unique(after) ==> forall|inlays: Seq<Inlay>|
                inlays.to_set() == inlays_after(visible_hints, splice) && in_cached_order(
                    after,
                    inlays,
                ) ==> #[trigger] shows_cached(after, inlays, multi_buffer)
        }),
{
    let e = query.excerpt_id;
    let cached = before.hints_of(e);
    let update = fetched.update(query, compared_inlays);
    let splice = before.update_splice(update, first_id, multi_buffer);
    let all_added = numbered(fetched.added(), first_id);
    let allowed = of_kinds(before.allowed_hint_kinds);
    let inserted = inserted_inlays(splice.to_insert);
    lemma_shown_iff_allowed(before, visible_hints, multi_buffer);
    assert(inserted =~= inlays_of(all_added.filter(allowed), e, multi_buffer));
    assert forall|other: ExcerptId| other != e implies #[trigger] after.hints_of(other)
        == before.hints_of(other) by {}
    assert forall|inlay: Inlay| inlays_after(visible_hints, splice).contains(inlay)
        <==> allowed_inlays(after, multi_buffer).contains(inlay) by {
        let x = inlay.position.excerpt_id;
        lemma_filtered_inlays(all_added, allowed, e, multi_buffer, inlay);
        if inserted.contains(inlay) {
            let k = choose|k: int|
                0 <= k < all_added.len() && is_inlay_of(
                    inlay,
                    #[trigger] all_added[k],
                    e,
                    multi_buffer,
                ) && allowed(all_added[k]);
            let hint = all_added[k];
            assert(all_added.contains(hint));
            lemma_cached_after(before, after, fetched, query, compared_inlays, first_id, hint);
            let i = choose|i: int| 0 <= i < after.hints_of(e).len() && after.hints_of(e)[i] == hint;
            assert(shows_at(after, multi_buffer, inlay, i));
        } else if inlays_after(visible_hints, splice).contains(inlay) {
            let i = choose|i: int| shows_at(before, multi_buffer, inlay, i);
            let hint = before.hints_of(x)[i];
            if x != e {
                assert(shows_at(after, multi_buffer, inlay, i));
            } else {
                if fetched.outdated_hint(query)(hint) {
                    assert(compared_inlays.contains(inlay));
                    lemma_filter_contains_iff(
                        compared_inlays,
                        fetched.outdated_inlay(query),
                        inlay,
                    );
                    lemma_inlay_ids_contains(
                        compared_inlays.filter(fetched.outdated_inlay(query)),
                        inlay,
                    );
                    assert(false);
                }
                assert(cached.contains(hint));
                lemma_cached_after(before, after, fetched, query, compared_inlays, first_id, hint);
                let k = choose|k: int|
                    0 <= k < after.hints_of(e).len() && after.hints_of(e)[k] == hint;
                assert(shows_at(after, multi_buffer, inlay, k));
            }
        }
        if allowed_inlays(after, multi_buffer).contains(inlay) {
            let i = choose|i: int| shows_at(after, multi_buffer, inlay, i);
            let hint = after.hints_of(x)[i];
            if x == e {
                assert(after.hints_of(e).contains(hint));
                lemma_cached_after(before, after, fetched, query, compared_inlays, first_id, hint);
            }
            if x == e && all_added.contains(hint) {
                let k = choose|k: int| 0 <= k < all_added.len() && all_added[k] == hint;
                assert(is_inlay_of(inlay, all_added[k], e, multi_buffer));
                assert(inserted.contains(inlay));
            } else {
                let k = if x == e {
                    choose|k: int| 0 <= k < cached.len() && cached[k] == hint
                } else {
                    i
                };
                assert(before.hints_of(x)[k] == hint);
                assert(shows_at(before, multi_buffer, inlay, k));
                if update.remove_from_visible.contains(inlay.id) {
                    let removed = compared_inlays.filter(fetched.outdated_inlay(query));
                    let m = choose|m: int|
                        0 <= m < inlay_ids(removed).len() && inlay_ids(removed)[m] == inlay.id;
                    let other = removed[m];
                    assert(removed.contains(other));
                    lemma_filter_contains_iff(
                        compared_inlays,
                        fetched.outdated_inlay(query),
                        other,
                    );
                    assert(visible_hints.contains(other));
                    let l = choose|l: int| shows_at(before, multi_buffer, other, l);
                    lemma_unique(before, x, k, e, l);
                    assert(false);
                }
            }
        }
    }
    assert(inlays_after(visible_hints, splice) =~= allowed_inlays(after, multi_buffer));
    lemma_ids_after(after, visible_hints, splice, multi_buffer);
    if ids_unique(after) {
        assert forall|inlays: Seq<Inlay>|
            inlays.to_set() == inlays_after(visible_hints, splice) && in_cached_order(
                after,
                inlays,
            ) implies #[trigger] shows_cached(after, inlays, multi_buffer) by {
            law_inlays_in_order_are_shown(after, inlays, multi_buffer);
        }
    }
}

proof fn lemma_inlay_ids_contains(inlays: Seq<Inlay>, inlay: Inlay)
    requires
        inlays.contains(inlay),
    ensures
        inlay_ids(inlays).contains(inlay.id),
{
    let i = choose|i: int| 0 <= i < inlays.len() && inlays[i] == inlay;
    assert(inlay_ids(inlays)[i] == inlay.id);
}

/// Where all cached hints can be looked up, they still can after an update for the buffer as
/// the multi-buffer has it, and so can those that are shown then.
pub proof fn law_update_keeps_look_up(
    before: CacheView,
    after: CacheView,
    update: UpdateView,
    first_id: usize,
    buffer_snapshot: &BufferSnapshot,
    multi_buffer: &MultiBufferSnapshot,
)
    requires
        before.updates_to(after, update, first_id, buffer_snapshot),
        can_look_up_all(before, multi_buffer),
        buffer_of(multi_buffer, update.excerpt_id) == Some(buffer_snapshot),
    ensures
        can_look_up_all(after, multi_buffer),
        can_look_up_shown(after, multi_buffer),
{
    assert forall|id: ExcerptId| id != update.excerpt_id implies #[trigger] after.hints_of(id)
        == before.hints_of(id) by {}
    lemma_look_up_shown(after, multi_buffer);
}

} // verus!
