//! What fetched hints change in the cache and in the editor.

use std::ops::Range;

use vstd::prelude::*;

use crate::anchor::{
    contains_position, spec_contains_position, BufferSnapshot, ExcerptId, TextAnchor,
};
use crate::clock::Global;
use crate::hint::{HintView, Inlay, InlayHint, InlayId};
use crate::order::{answers_search, hint_views, place_as_int, search_end, search_position};
use crate::query::ExcerptQuery;
use crate::sequences::{lemma_filter_none, lemma_filter_step};

verus! {

/// The hints that are cached for an excerpt.
#[derive(Debug)]
pub struct CachedExcerptHints {
    /// The version that the cache had when these hints were asked for.
    pub version: usize,
    /// The version of the buffer that the hints are for.
    pub buffer_version: Global,
    /// The hints, in the order of their positions.
    pub hints: Vec<(InlayId, InlayHint)>,
}

/// The mathematical value of a [`CachedExcerptHints`].
#[verifier::ext_equal]
pub struct ExcerptHintsView {
    pub version: usize,
    pub buffer_version: Seq<u32>,
    pub hints: Seq<(InlayId, HintView)>,
}

impl View for CachedExcerptHints {
    type V = ExcerptHintsView;

    open spec fn view(&self) -> ExcerptHintsView {
        ExcerptHintsView {
            version: self.version,
            buffer_version: self.buffer_version@,
            hints: hint_views(self.hints@),
        }
    }
}

/// What a fetch of hints changes.
#[derive(Debug)]
pub struct ExcerptHintsUpdate {
    pub excerpt_id: ExcerptId,
    pub cache_version: usize,
    /// The inlays that the editor no longer is to show.
    pub remove_from_visible: Vec<InlayId>,
    /// The hints that no longer are to be cached.
    pub remove_from_cache: Vec<InlayId>,
    /// The hints that are to be cached, none of them twice.
    pub add_to_cache: Vec<InlayHint>,
}

/// The mathematical value of an [`ExcerptHintsUpdate`].
#[verifier::ext_equal]
pub struct UpdateView {
    pub excerpt_id: ExcerptId,
    pub cache_version: usize,
    pub remove_from_visible: Seq<InlayId>,
    pub remove_from_cache: Seq<InlayId>,
    pub add_to_cache: Seq<HintView>,
}

/// The mathematical values of hints.
pub open spec fn bare_views(hints: Seq<InlayHint>) -> Seq<HintView> {
    Seq::new(hints.len(), |i: int| hints[i]@)
}

impl View for ExcerptHintsUpdate {
    type V = UpdateView;

    open spec fn view(&self) -> UpdateView {
        UpdateView {
            excerpt_id: self.excerpt_id,
            cache_version: self.cache_version,
            remove_from_visible: self.remove_from_visible@,
            remove_from_cache: self.remove_from_cache@,
            add_to_cache: bare_views(self.add_to_cache@),
        }
    }
}

impl UpdateView {
    /// Whether the update removes or adds anything.
    pub open spec fn changes_anything(self) -> bool {
        self.remove_from_visible.len() > 0 || self.remove_from_cache.len() > 0
            || self.add_to_cache.len() > 0
    }
}

impl ExcerptHintsUpdate {
    /// Whether the update removes or adds anything.
    pub fn changes_anything(&self) -> (changes: bool)
        ensures
            changes == self@.changes_anything(),
    {
        self.add_to_cache.len() > 0 || self.remove_from_cache.len() > 0
            || self.remove_from_visible.len() > 0
    }
}

/// The ids of inlays.
pub open spec fn inlay_ids(inlays: Seq<Inlay>) -> Seq<InlayId> {
    Seq::new(inlays.len(), |i: int| inlays[i].id)
}

/// The ids of hints.
pub open spec fn hint_ids(hints: Seq<(InlayId, HintView)>) -> Seq<InlayId> {
    Seq::new(hints.len(), |i: int| hints[i].0)
}

/// The hints that are cached, none where nothing is.
pub open spec fn cached_views(cached_excerpt_hints: Option<&CachedExcerptHints>) -> Seq<
    (InlayId, HintView),
> {
    match cached_excerpt_hints {
        Some(cached) => cached@.hints,
        None => Seq::empty(),
    }
}

/// Hints that were fetched for a range, beside the hints that are cached.
pub struct FetchedHints {
    pub range: Range<TextAnchor>,
    pub buffer: BufferSnapshot,
    pub hints: Seq<HintView>,
    pub cached: Seq<(InlayId, HintView)>,
    /// For each fetched hint, where a cached hint was found at its position.
    pub found: Seq<Option<int>>,
}

impl FetchedHints {
    /// Whether a position lies in the range that the hints were fetched for.
    pub open spec fn in_range(self, position: TextAnchor) -> bool {
        spec_contains_position(self.range, position, &self.buffer)
    }

    /// Whether `found` tells of each fetched hint where one is cached at its position, and
    /// tells the same of all fetched hints at one position.
    pub open spec fn well_searched(self) -> bool {
        &&& self.found.len() == self.hints.len()
        &&& forall|j: int|
            0 <= j < self.hints.len() ==> answers_search(
                self.cached,
                (#[trigger] self.hints[j]).position,
                &self.buffer,
                self.found[j],
            )
        &&& forall|j: int, k: int|
            0 <= j < self.hints.len() && 0 <= k < self.hints.len() && self.buffer.rank(
                (#[trigger] self.hints[j]).position,
            ) == self.buffer.rank((#[trigger] self.hints[k]).position) ==> self.found[j]
                == self.found[k]
    }

    /// Whether this is a comparison of `hints`, fetched for `range` of `buffer`, with `cached`.
    ///
    /// Two such comparisons can differ in the cached hints that were found at the positions
    /// of the fetched ones, where several are cached at one position or where they are not in
    /// the order of their positions.
    pub open spec fn compares(
        self,
        range: Range<TextAnchor>,
        buffer: BufferSnapshot,
        hints: Seq<HintView>,
        cached: Seq<(InlayId, HintView)>,
    ) -> bool {
        &&& self.range == range
        &&& self.buffer == buffer
        &&& self.hints == hints
        &&& self.cached == cached
        &&& self.well_searched()
    }

    /// Whether the fetched hint `j` is in the range and is the same as the cached hint that
    /// was found at its position.
    pub open spec fn confirms(self, j: int) -> bool {
        &&& self.in_range(self.hints[j].position)
        &&& self.found[j] is Some
        &&& self.cached[self.found[j]->0].1 == self.hints[j]
    }

    /// Whether the fetched hint `j` is in the range and not cached yet.
    pub open spec fn is_new(self, j: int) -> bool {
        self.in_range(self.hints[j].position) && !self.confirms(j)
    }

    /// Whether one of the first `n` fetched hints confirms the cached hint with this id.
    pub open spec fn confirmed_by_first(self, n: int, id: InlayId) -> bool {
        exists|j: int|
            0 <= j < n && #[trigger] self.confirms(j) && self.cached[self.found[j]->0].0 == id
    }

    /// Whether a fetched hint confirms the cached hint with this id.
    pub open spec fn confirmed(self, id: InlayId) -> bool {
        self.confirmed_by_first(self.hints.len() as int, id)
    }

    /// The new ones among the first `n` fetched hints, each once.
    pub open spec fn added_by_first(self, n: int) -> Seq<HintView>
        decreases n,
    {
        if n <= 0 {
            Seq::empty()
        } else {
            let added = self.added_by_first(n - 1);
            if self.is_new(n - 1) && !added.contains(self.hints[n - 1]) {
                added.push(self.hints[n - 1])
            } else {
                added
            }
        }
    }

    /// The new ones among the fetched hints, each once.
    pub open spec fn added(self) -> Seq<HintView> {
        self.added_by_first(self.hints.len() as int)
    }

    /// Holds of the inlays of the excerpt in the range that no fetched hint confirms, where
    /// the query invalidates.
    pub open spec fn outdated_inlay(self, query: ExcerptQuery) -> spec_fn(Inlay) -> bool {
        |inlay: Inlay|
            query.invalidate.spec_invalidates() && inlay.position.excerpt_id == query.excerpt_id
                && self.in_range(inlay.position.text_anchor) && !self.confirmed(inlay.id)
    }

    /// Holds of the cached hints in the range that no fetched hint confirms, where the query
    /// invalidates.
    pub open spec fn outdated_hint(self, query: ExcerptQuery) -> spec_fn(
        (InlayId, HintView),
    ) -> bool {
        |hint: (InlayId, HintView)|
            query.invalidate.spec_invalidates() && self.in_range(hint.1.position)
                && !self.confirmed(hint.0)
    }

    /// What the fetched hints change: those that are new are added, and those that they do
    /// not confirm are removed, where the query invalidates.
    pub open spec fn update(self, query: ExcerptQuery, visible_hints: Seq<Inlay>) -> UpdateView {
        UpdateView {
            excerpt_id: query.excerpt_id,
            cache_version: query.cache_version,
            remove_from_visible: inlay_ids(visible_hints.filter(self.outdated_inlay(query))),
            remove_from_cache: hint_ids(self.cached.filter(self.outdated_hint(query))),
            add_to_cache: self.added(),
        }
    }
}

/// Whether `id` is among `ids`.
pub fn contains_id(ids: &Vec<InlayId>, id: InlayId) -> (contained: bool)
    ensures
        contained == ids@.contains(id),
{
    let mut i: usize = 0;
    while i < ids.len()
        invariant
            i <= ids.len(),
            forall|j: int| 0 <= j < i ==> ids@[j] != id,
        decreases ids.len() - i,
    {
        if ids[i] == id {
            return true;
        }
        i = i + 1;
    }
    false
}

fn contains_hint(hints: &Vec<InlayHint>, hint: &InlayHint) -> (contained: bool)
    ensures
        contained == bare_views(hints@).contains(hint@),
{
    let ghost views = bare_views(hints@);
    let mut i: usize = 0;
    while i < hints.len()
        invariant
            i <= hints.len(),
            views == bare_views(hints@),
            forall|j: int| 0 <= j < i ==> views[j] != hint@,
        decreases hints.len() - i,
    {
        if hints[i].same_as(hint) {
            assert(views[i as int] == hint@);
            return true;
        }
        i = i + 1;
    }
    false
}

/// Where among the cached hints one stands at the position of each of `hints`.
fn locate(
    hints: &Vec<InlayHint>,
    cached_excerpt_hints: Option<&CachedExcerptHints>,
    buffer_snapshot: &BufferSnapshot,
) -> (found: Vec<Option<usize>>)
    ensures
        found.len() == hints.len(),
        forall|j: int|
            0 <= j < hints.len() ==> answers_search(
                cached_views(cached_excerpt_hints),
                hints[j].position,
                buffer_snapshot,
                place_as_int(#[trigger] found[j]),
            ),
        forall|j: int, k: int|
            0 <= j < hints.len() && 0 <= k < hints.len() && buffer_snapshot.rank(hints[j].position)
                == buffer_snapshot.rank(hints[k].position) ==> (#[trigger] found[j]) == (
            #[trigger] found[k]),
{
    let mut found: Vec<Option<usize>> = Vec::new();
    let mut j: usize = 0;
    while j < hints.len()
        invariant
            j <= hints.len(),
            found.len() == j,
            forall|k: int|
                0 <= k < j ==> answers_search(
                    cached_views(cached_excerpt_hints),
                    hints[k].position,
                    buffer_snapshot,
                    place_as_int(#[trigger] found[k]),
                ),
            forall|k: int|
                0 <= k < j && cached_excerpt_hints is Some ==> place_as_int(#[trigger] found[k])
                    == search_end(
                    cached_views(cached_excerpt_hints),
                    buffer_snapshot.rank(hints[k].position),
                    buffer_snapshot,
                ),
            forall|k: int|
                0 <= k < j && cached_excerpt_hints is None ==> (#[trigger] found[k]) is None,
        decreases hints.len() - j,
    {
        let at: Option<usize> = match cached_excerpt_hints {
            Some(cached) => search_position(&cached.hints, hints[j].position, buffer_snapshot),
            None => None,
        };
        assert(answers_search(
            cached_views(cached_excerpt_hints),
            hints[j as int].position,
            buffer_snapshot,
            place_as_int(at),
        ));
        found.push(at);
        j = j + 1;
    }
    found
}

/// Whether `update` is what the fetched hints change, `None` where they change nothing.
pub open spec fn is_update_for(
    update: Option<ExcerptHintsUpdate>,
    fetched: FetchedHints,
    query: ExcerptQuery,
    visible_hints: Seq<Inlay>,
) -> bool {
    match update {
        Some(update) => update@ == fetched.update(query, visible_hints)
            && update@.changes_anything(),
        None => !fetched.update(query, visible_hints).changes_anything(),
    }
}

/// Compares the hints that were fetched for `fetch_range` with the hints that are cached for
/// the excerpt, and tells what has to change in the cache and among the inlays that the
/// editor shows.
pub fn calculate_hint_updates(
    query: ExcerptQuery,
    fetch_range: Range<TextAnchor>,
    new_excerpt_hints: Vec<InlayHint>,
    buffer_snapshot: &BufferSnapshot,
    cached_excerpt_hints: Option<&CachedExcerptHints>,
    visible_hints: &[Inlay],
) -> (update: Option<ExcerptHintsUpdate>)
    ensures
        exists|fetched: FetchedHints| #[trigger]
            fetched.compares(
                fetch_range,
                *buffer_snapshot,
                bare_views(new_excerpt_hints@),
                cached_views(cached_excerpt_hints),
            ) && is_update_for(update, fetched, query, visible_hints@),
{
    let found = locate(&new_excerpt_hints, cached_excerpt_hints, buffer_snapshot);
    let ghost cached = cached_views(cached_excerpt_hints);
    let ghost new_views = bare_views(new_excerpt_hints@);
    let ghost fetched = FetchedHints {
        range: fetch_range,
        buffer: *buffer_snapshot,
        hints: new_views,
        cached,
        found: Seq::new(found@.len(), |j: int| place_as_int(found@[j])),
    };
    assert(fetched.well_searched()) by {
        assert forall|j: int| 0 <= j < fetched.hints.len() implies answers_search(
            fetched.cached,
            (#[trigger] fetched.hints[j]).position,
            &fetched.buffer,
            fetched.found[j],
        ) by {
            assert(fetched.found[j] == place_as_int(found@[j]));
            assert(fetched.hints[j] == new_excerpt_hints@[j]@);
        }
        assert forall|j: int, k: int|
            0 <= j < fetched.hints.len() && 0 <= k < fetched.hints.len() && fetched.buffer.rank(
                (#[trigger] fetched.hints[j]).position,
            ) == fetched.buffer.rank(
                (#[trigger] fetched.hints[k]).position,
            ) implies fetched.found[j] == fetched.found[k] by {
            assert(fetched.hints[j] == new_excerpt_hints@[j]@);
            assert(fetched.hints[k] == new_excerpt_hints@[k]@);
            assert(found@[j] == found@[k]);
        }
    }

    let mut add_to_cache: Vec<InlayHint> = Vec::new();
    let mut hints_to_persist: Vec<InlayId> = Vec::new();
    let mut j: usize = 0;
    assert(bare_views(add_to_cache@) =~= fetched.added_by_first(0));
    for new_hint in it: new_excerpt_hints
        invariant
            j == it.index(),
            new_views == bare_views(it.seq()),
            found.len() == new_views.len(),
            fetched.range == fetch_range,
            fetched.buffer == *buffer_snapshot,
            fetched.hints == new_views,
            fetched.cached == cached_views(cached_excerpt_hints),
            fetched.found == Seq::new(found@.len(), |j: int| place_as_int(found@[j])),
            fetched.well_searched(),
            bare_views(add_to_cache@) == fetched.added_by_first(j as int),
            forall|id: InlayId|
                hints_to_persist@.contains(id) <==> #[trigger] fetched.confirmed_by_first(
                    j as int,
                    id,
                ),
    {
        let ghost persisted = hints_to_persist@;
        assert(fetched.hints[j as int] == new_hint@);
        assert(fetched.found[j as int] == place_as_int(found@[j as int]));
        if contains_position(&fetch_range, new_hint.position, buffer_snapshot) {
            let confirmed: Option<InlayId> = match (cached_excerpt_hints, found[j]) {
                (Some(cached_hints), Some(at)) => {
                    let entry = &cached_hints.hints[at];
                    if entry.1.same_as(&new_hint) {
                        Some(entry.0)
                    } else {
                        None
                    }
                },
                _ => None,
            };
            assert(confirmed is Some <==> fetched.confirms(j as int));
            match confirmed {
                Some(id) => {
                    assert(id == fetched.cached[fetched.found[j as int]->0].0);
                    hints_to_persist.push(id);
                    assert(hints_to_persist@.last() == id);
                },
                None => {
                    if !contains_hint(&add_to_cache, &new_hint) {
                        let ghost added = add_to_cache@;
                        add_to_cache.push(new_hint);
                        assert(bare_views(add_to_cache@) =~= bare_views(added).push(new_hint@));
                    }
                },
            }
        }
        proof {
            assert(bare_views(add_to_cache@) == fetched.added_by_first(j + 1));
            assert forall|id: InlayId|
                hints_to_persist@.contains(id) <==> #[trigger] fetched.confirmed_by_first(
                    j + 1,
                    id,
                ) by {
                let here = fetched.confirms(j as int)
                    && fetched.cached[fetched.found[j as int]->0].0 == id;
                assert(fetched.confirmed_by_first(j + 1, id) <==> (fetched.confirmed_by_first(
                    j as int,
                    id,
                ) || here));
                assert(hints_to_persist@.contains(id) <==> (persisted.contains(id) || here)) by {
                    if hints_to_persist@ != persisted {
                        let last = hints_to_persist@.last();
                        assert(hints_to_persist@ =~= persisted.push(last));
                        if persisted.contains(id) {
                            let k = choose|k: int| 0 <= k < persisted.len() && persisted[k] == id;
                            assert(hints_to_persist@[k] == id);
                        }
                        assert(hints_to_persist@[persisted.len() as int] == last);
                    }
                }
            }
        }
        j = j + 1;
    }
    assert forall|id: InlayId| hints_to_persist@.contains(id) <==> #[trigger] fetched.confirmed(
        id,
    ) by {
        assert(hints_to_persist@.contains(id) <==> fetched.confirmed_by_first(j as int, id));
    }

    let mut remove_from_visible: Vec<InlayId> = Vec::new();
    let mut remove_from_cache: Vec<InlayId> = Vec::new();
    let ghost outdated_inlay = fetched.outdated_inlay(query);
    let ghost outdated_hint = fetched.outdated_hint(query);
    if query.invalidate.invalidates() {
        let mut i: usize = 0;
        assert(visible_hints@.take(0).filter(outdated_inlay) =~= Seq::<Inlay>::empty()) by {
            reveal(Seq::filter);
        }
        while i < visible_hints.len()
            invariant
                i <= visible_hints.len(),
                query.invalidate.spec_invalidates(),
                fetched.range == fetch_range,
                fetched.buffer == *buffer_snapshot,
                outdated_inlay == fetched.outdated_inlay(query),
                forall|id: InlayId|
                    hints_to_persist@.contains(id) <==> #[trigger] fetched.confirmed(id),
                remove_from_visible@ == inlay_ids(
                    visible_hints@.take(i as int).filter(outdated_inlay),
                ),
            decreases visible_hints.len() - i,
        {
            let inlay = visible_hints[i];
            let ghost removed = remove_from_visible@;
            if inlay.position.excerpt_id == query.excerpt_id && contains_position(
                &fetch_range,
                inlay.position.text_anchor,
                buffer_snapshot,
            ) && !contains_id(&hints_to_persist, inlay.id) {
                remove_from_visible.push(inlay.id);
            }
            proof {
                lemma_filter_step(visible_hints@, outdated_inlay, i as int);
                assert(outdated_inlay(inlay) ==> remove_from_visible@ =~= removed.push(inlay.id));
                assert(remove_from_visible@ =~= inlay_ids(
                    visible_hints@.take(i + 1).filter(outdated_inlay),
                ));
            }
            i = i + 1;
        }
        assert(visible_hints@.take(visible_hints@.len() as int) =~= visible_hints@);

        match cached_excerpt_hints {
            Some(cached_hints) => {
                let mut i: usize = 0;
                assert(cached.take(0).filter(outdated_hint) =~= Seq::<(InlayId, HintView)>::empty())
                    by {
                    reveal(Seq::filter);
                }
                while i < cached_hints.hints.len()
                    invariant
                        i <= cached_hints.hints.len(),
                        query.invalidate.spec_invalidates(),
                        fetched.range == fetch_range,
                        fetched.buffer == *buffer_snapshot,
                        cached == hint_views(cached_hints.hints@),
                        outdated_hint == fetched.outdated_hint(query),
                        forall|id: InlayId|
                            hints_to_persist@.contains(id) <==> #[trigger] fetched.confirmed(id),
                        remove_from_cache@ == hint_ids(cached.take(i as int).filter(outdated_hint)),
                    decreases cached_hints.hints.len() - i,
                {
                    let entry = &cached_hints.hints[i];
                    if contains_position(&fetch_range, entry.1.position, buffer_snapshot)
                        && !contains_id(&hints_to_persist, entry.0) {
                        remove_from_cache.push(entry.0);
                    }
                    proof {
                        assert(cached[i as int] == (entry.0, entry.1@));
                        lemma_filter_step(cached, outdated_hint, i as int);
                        assert(remove_from_cache@ =~= hint_ids(
                            cached.take(i + 1).filter(outdated_hint),
                        ));
                    }
                    i = i + 1;
                }
                assert(cached.take(cached.len() as int) =~= cached);
            },
            None => {
                proof {
                    lemma_filter_none(cached, outdated_hint);
                    assert(remove_from_cache@ =~= hint_ids(cached.filter(outdated_hint)));
                }
            },
        }
    } else {
        proof {
            lemma_filter_none(visible_hints@, outdated_inlay);
            lemma_filter_none(cached, outdated_hint);
            assert(remove_from_visible@ =~= inlay_ids(visible_hints@.filter(outdated_inlay)));
            assert(remove_from_cache@ =~= hint_ids(cached.filter(outdated_hint)));
        }
    }

    assert(fetched.compares(fetch_range, *buffer_snapshot, new_views, cached));
    if remove_from_visible.len() == 0 && remove_from_cache.len() == 0 && add_to_cache.len() == 0 {
        None
    } else {
        Some(
            ExcerptHintsUpdate {
                excerpt_id: query.excerpt_id,
                cache_version: query.cache_version,
                remove_from_visible,
                remove_from_cache,
                add_to_cache,
            },
        )
    }
}

} // verus!
