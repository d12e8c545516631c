//! The editor shows the cached hints of the allowed kinds, whatever changes.

use vstd::prelude::*;

use crate::anchor::{Anchor, ExcerptId, MultiBufferSnapshot};
use crate::cache::{of_kinds, CacheView, SettingsFlow};
use crate::hint::{HintView, Inlay, InlayHintSettings, InlayId};
use crate::laws::kinds::{
    can_look_up, inlays_of, law_kinds_change_in_excerpt, no_longer_allowed,
};
use crate::sequences::{
    lemma_concat_contains, lemma_filter_contains_iff, lemma_filter_increasing, lemma_same_order,
};
use crate::splice::{
    in_excerpt, lemma_walks_agree, newly_allowed, unless_empty, KindsChange, SpliceView,
};
use crate::updates::{hint_ids, inlay_ids, ExcerptHintsView};

verus! {

/// Whether the editor shows, excerpt by excerpt and in their order, the cached hints of the
/// allowed kinds and no others.
pub open spec fn shows_cached(
    cache: CacheView,
    visible_hints: Seq<Inlay>,
    multi_buffer: &MultiBufferSnapshot,
) -> bool {
    forall|id: ExcerptId| #[trigger]
        visible_hints.filter(in_excerpt(id)) == inlays_of(
            cache.hints_of(id).filter(of_kinds(cache.allowed_hint_kinds)),
            id,
            multi_buffer,
        )
}

/// Whether no two cached hints have one id.
pub open spec fn ids_unique(cache: CacheView) -> bool {
    &&& forall|id: ExcerptId| hint_ids(#[trigger] cache.hints_of(id)).no_duplicates()
    &&& forall|a: ExcerptId, b: ExcerptId, i: int, j: int|
        a != b && 0 <= i < cache.hints_of(a).len() && 0 <= j < cache.hints_of(b).len() ==> (
        #[trigger] cache.hints_of(a)[i]).0 != (#[trigger] cache.hints_of(b)[j]).0
}

/// Whether all cached hints have ids below `next_inlay_id`.
pub open spec fn ids_below(cache: CacheView, next_inlay_id: int) -> bool {
    forall|excerpt_id: ExcerptId, i: int|
        0 <= i < cache.hints_of(excerpt_id).len() ==> {
            &&& (#[trigger] cache.hints_of(excerpt_id)[i]).0 is Hint
            &&& cache.hints_of(excerpt_id)[i].0->Hint_0 < next_inlay_id
        }
}

/// Whether the cache has a hint with this id at place `i` of an excerpt, of an allowed kind.
pub open spec fn allows_at(cache: CacheView, excerpt_id: ExcerptId, i: int, id: InlayId) -> bool {
    &&& 0 <= i < cache.hints_of(excerpt_id).len()
    &&& cache.hints_of(excerpt_id)[i].0 == id
    &&& cache.allowed_hint_kinds.contains(cache.hints_of(excerpt_id)[i].1.kind)
}

/// The ids of the cached hints of the allowed kinds.
pub open spec fn allowed_ids(cache: CacheView) -> Set<InlayId> {
    Set::new(
        |id: InlayId|
            exists|excerpt_id: ExcerptId, i: int| allows_at(cache, excerpt_id, i, id),
    )
}

/// The ids of hints to insert.
pub open spec fn inserted_ids(hints: Seq<(Anchor, InlayId, HintView)>) -> Seq<InlayId> {
    Seq::new(hints.len(), |i: int| hints[i].1)
}

/// The ids of the inlays that the editor shows after a splice.
pub open spec fn shown_after(visible_hints: Seq<Inlay>, splice: SpliceView) -> Set<InlayId> {
    inlay_ids(visible_hints).to_set().difference(splice.to_remove.to_set()).union(
        inserted_ids(splice.to_insert).to_set(),
    )
}

/// Whether an inlay stands for the cached hint at place `i` of its excerpt, which is of an
/// allowed kind: it has its id, and is at its position.
pub open spec fn shows_at(
    cache: CacheView,
    multi_buffer: &MultiBufferSnapshot,
    inlay: Inlay,
    i: int,
) -> bool {
    let excerpt_id = inlay.position.excerpt_id;
    &&& allows_at(cache, excerpt_id, i, inlay.id)
    &&& inlay.position == multi_buffer.spec_anchor_in_excerpt(
        excerpt_id,
        cache.hints_of(excerpt_id)[i].1.position,
    )
}

/// The inlays that stand for the cached hints of the allowed kinds.
pub open spec fn allowed_inlays(cache: CacheView, multi_buffer: &MultiBufferSnapshot) -> Set<
    Inlay,
> {
    Set::new(|inlay: Inlay| exists|i: int| shows_at(cache, multi_buffer, inlay, i))
}

/// The inlays that hints to insert become.
pub open spec fn inserted_inlays(hints: Seq<(Anchor, InlayId, HintView)>) -> Seq<Inlay> {
    Seq::new(hints.len(), |i: int| Inlay { id: hints[i].1, position: hints[i].0 })
}

/// The inlays that the editor shows after a splice.
pub open spec fn inlays_after(visible_hints: Seq<Inlay>, splice: SpliceView) -> Set<Inlay> {
    Set::new(
        |inlay: Inlay|
            (visible_hints.contains(inlay) && !splice.to_remove.contains(inlay.id))
                || inserted_inlays(splice.to_insert).contains(inlay),
    )
}

/// Whether the inlays of each excerpt are in the order in which its hints are cached.
pub open spec fn in_cached_order(cache: CacheView, inlays: Seq<Inlay>) -> bool {
    forall|a: int, b: int, k: int, l: int|
        #![trigger
            inlays[a],
            inlays[b],
            cache.hints_of(inlays[a].position.excerpt_id)[k],
            cache.hints_of(inlays[b].position.excerpt_id)[l]]
        0 <= a < b < inlays.len() && inlays[a].position.excerpt_id
            == inlays[b].position.excerpt_id && 0 <= k < cache.hints_of(
            inlays[a].position.excerpt_id,
        ).len() && 0 <= l < cache.hints_of(inlays[b].position.excerpt_id).len()
            && cache.hints_of(inlays[a].position.excerpt_id)[k].0 == inlays[a].id
            && cache.hints_of(inlays[b].position.excerpt_id)[l].0 == inlays[b].id ==> k < l
}

/// The splice that an answer to a change of the settings holds, an empty one where it holds
/// none.
pub open spec fn splice_of(flow: SettingsFlow) -> SpliceView {
    match flow {
        SettingsFlow::Break(Some(splice)) => splice,
        _ => SpliceView { to_remove: Seq::empty(), to_insert: Seq::empty() },
    }
}

/// Inlays are shown exactly for the cached hints of the allowed kinds.
pub(crate) proof fn lemma_shown_iff_allowed(
    cache: CacheView,
    visible_hints: Seq<Inlay>,
    multi_buffer: &MultiBufferSnapshot,
)
    requires
        shows_cached(cache, visible_hints, multi_buffer),
    ensures
        visible_hints.to_set() == allowed_inlays(cache, multi_buffer),
        forall|inlay: Inlay| #[trigger]
            visible_hints.contains(inlay) ==> exists|i: int|
                shows_at(cache, multi_buffer, inlay, i),
        forall|inlay: Inlay, i: int| #[trigger]
            shows_at(cache, multi_buffer, inlay, i) ==> visible_hints.contains(inlay),
{
    let allowed = of_kinds(cache.allowed_hint_kinds);
    assert forall|inlay: Inlay| #[trigger] visible_hints.contains(inlay) implies exists|i: int|
        shows_at(cache, multi_buffer, inlay, i) by {
        let e = inlay.position.excerpt_id;
        lemma_filter_contains_iff(visible_hints, in_excerpt(e), inlay);
        assert(visible_hints.filter(in_excerpt(e)) == inlays_of(
            cache.hints_of(e).filter(allowed),
            e,
            multi_buffer,
        ));
        lemma_filtered_inlays(cache.hints_of(e), allowed, e, multi_buffer, inlay);
        let i = choose|i: int|
            0 <= i < cache.hints_of(e).len() && is_inlay_of(
                inlay,
                #[trigger] cache.hints_of(e)[i],
                e,
                multi_buffer,
            ) && allowed(cache.hints_of(e)[i]);
        assert(shows_at(cache, multi_buffer, inlay, i));
    }
    assert forall|inlay: Inlay, i: int| #[trigger]
        shows_at(cache, multi_buffer, inlay, i) implies visible_hints.contains(inlay) by {
        let e = inlay.position.excerpt_id;
        assert(is_inlay_of(inlay, cache.hints_of(e)[i], e, multi_buffer));
        lemma_filtered_inlays(cache.hints_of(e), allowed, e, multi_buffer, inlay);
        assert(visible_hints.filter(in_excerpt(e)) == inlays_of(
            cache.hints_of(e).filter(allowed),
            e,
            multi_buffer,
        ));
        lemma_filter_contains_iff(visible_hints, in_excerpt(e), inlay);
    }
    assert(visible_hints.to_set() =~= allowed_inlays(cache, multi_buffer));
}

/// Whether the inlay has the id of the hint and is at its position in the excerpt.
pub open spec fn is_inlay_of(
    inlay: Inlay,
    hint: (InlayId, HintView),
    excerpt_id: ExcerptId,
    multi_buffer: &MultiBufferSnapshot,
) -> bool {
    &&& inlay.id == hint.0
    &&& inlay.position == multi_buffer.spec_anchor_in_excerpt(excerpt_id, hint.1.position)
}

/// The inlays of the hints that a filter keeps are those of hints of which it holds.
pub(crate) proof fn lemma_filtered_inlays(
    hints: Seq<(InlayId, HintView)>,
    keep: spec_fn((InlayId, HintView)) -> bool,
    excerpt_id: ExcerptId,
    multi_buffer: &MultiBufferSnapshot,
    inlay: Inlay,
)
    ensures
        inlays_of(hints.filter(keep), excerpt_id, multi_buffer).contains(inlay) <==> exists|
            i: int,
        |
            0 <= i < hints.len() && is_inlay_of(
                inlay,
                #[trigger] hints[i],
                excerpt_id,
                multi_buffer,
            ) && keep(hints[i]),
{
    let kept = hints.filter(keep);
    let inlays = inlays_of(kept, excerpt_id, multi_buffer);
    if inlays.contains(inlay) {
        let k = choose|k: int| 0 <= k < inlays.len() && inlays[k] == inlay;
        assert(kept.contains(kept[k]));
        lemma_filter_contains_iff(hints, keep, kept[k]);
        let i = choose|i: int| 0 <= i < hints.len() && hints[i] == kept[k];
        assert(is_inlay_of(inlay, hints[i], excerpt_id, multi_buffer));
    }
    if exists|i: int|
        0 <= i < hints.len() && is_inlay_of(inlay, #[trigger] hints[i], excerpt_id, multi_buffer)
            && keep(hints[i]) {
        let i = choose|i: int|
            0 <= i < hints.len() && is_inlay_of(
                inlay,
                #[trigger] hints[i],
                excerpt_id,
                multi_buffer,
            ) && keep(hints[i]);
        lemma_filter_contains_iff(hints, keep, hints[i]);
        let k = choose|k: int| 0 <= k < kept.len() && kept[k] == hints[i];
        assert(inlays[k] == inlay);
    }
}

/// Where a splice makes the editor show the inlays of the allowed kinds, it makes it show
/// their ids.
pub(crate) proof fn lemma_ids_after(
    cache: CacheView,
    visible_hints: Seq<Inlay>,
    splice: SpliceView,
    multi_buffer: &MultiBufferSnapshot,
)
    requires
        inlays_after(visible_hints, splice) == allowed_inlays(cache, multi_buffer),
    ensures
        shown_after(visible_hints, splice) == allowed_ids(cache),
{
    let ids = inlay_ids(visible_hints);
    let inserted = inserted_inlays(splice.to_insert);
    let new_ids = inserted_ids(splice.to_insert);
    assert forall|id: InlayId| shown_after(visible_hints, splice).contains(id) <==> allowed_ids(
        cache,
    ).contains(id) by {
        if shown_after(visible_hints, splice).contains(id) {
            let inlay = if new_ids.contains(id) {
                let k = choose|k: int| 0 <= k < new_ids.len() && new_ids[k] == id;
                assert(inserted.contains(inserted[k]));
                inserted[k]
            } else {
                let k = choose|k: int| 0 <= k < ids.len() && ids[k] == id;
                assert(visible_hints.contains(visible_hints[k]));
                visible_hints[k]
            };
            assert(inlays_after(visible_hints, splice).contains(inlay));
            assert(allowed_inlays(cache, multi_buffer).contains(inlay));
            let i = choose|i: int| shows_at(cache, multi_buffer, inlay, i);
            assert(allows_at(cache, inlay.position.excerpt_id, i, id));
        }
        if allowed_ids(cache).contains(id) {
            let (e, i) = choose|e: ExcerptId, i: int| allows_at(cache, e, i, id);
            let inlay = Inlay {
                id,
                position: multi_buffer.spec_anchor_in_excerpt(e, cache.hints_of(e)[i].1.position),
            };
            assert(shows_at(cache, multi_buffer, inlay, i));
            assert(allowed_inlays(cache, multi_buffer).contains(inlay));
            assert(inlays_after(visible_hints, splice).contains(inlay));
            if inserted.contains(inlay) {
                let k = choose|k: int| 0 <= k < inserted.len() && inserted[k] == inlay;
                assert(new_ids[k] == id);
            } else {
                let k = choose|k: int| 0 <= k < visible_hints.len() && visible_hints[k] == inlay;
                assert(ids[k] == id);
            }
        }
    }
    assert(shown_after(visible_hints, splice) =~= allowed_ids(cache));
}

pub(crate) proof fn lemma_removed_contains(change: KindsChange, walk: Seq<ExcerptId>, id: InlayId)
    ensures
        change.removed(walk).contains(id) <==> exists|i: int|
            0 <= i < walk.len() && change.removed_in(#[trigger] walk[i]).contains(id),
    decreases walk.len(),
{
    if walk.len() > 0 {
        let rest = walk.drop_last();
        lemma_removed_contains(change, rest, id);
        let a = change.removed(rest);
        let b = change.removed_in(walk.last());
        lemma_concat_contains(a, b, id);
        if change.removed(walk).contains(id) {
            if a.contains(id) {
                let i = choose|i: int|
                    0 <= i < rest.len() && change.removed_in(#[trigger] rest[i]).contains(id);
                assert(walk[i] == rest[i]);
            } else {
                assert(change.removed_in(walk[walk.len() - 1]).contains(id));
            }
        }
        if exists|i: int| 0 <= i < walk.len() && change.removed_in(#[trigger] walk[i]).contains(id) {
            let i = choose|i: int|
                0 <= i < walk.len() && change.removed_in(#[trigger] walk[i]).contains(id);
            if i < rest.len() {
                assert(rest[i] == walk[i]);
            }
        }
    }
}

proof fn lemma_inserted_contains(change: KindsChange, walk: Seq<ExcerptId>, inlay: Inlay)
    ensures
        inserted_inlays(change.inserted(walk)).contains(inlay) <==> exists|i: int|
            0 <= i < walk.len() && inserts_in(change, #[trigger] walk[i], inlay),
    decreases walk.len(),
{
    if walk.len() > 0 {
        let rest = walk.drop_last();
        lemma_inserted_contains(change, rest, inlay);
        let a = inserted_inlays(change.inserted(rest));
        let b = inlays_of(change.inserted_in(walk.last()), walk.last(), &change.multi_buffer);
        assert(inserted_inlays(change.inserted(walk)) =~= a + b);
        lemma_concat_contains(a, b, inlay);
        if inserted_inlays(change.inserted(walk)).contains(inlay) {
            if a.contains(inlay) {
                let i = choose|i: int|
                    0 <= i < rest.len() && inserts_in(change, #[trigger] rest[i], inlay);
                assert(walk[i] == rest[i]);
            } else {
                assert(inserts_in(change, walk[walk.len() - 1], inlay));
            }
        }
        if exists|i: int| 0 <= i < walk.len() && inserts_in(change, #[trigger] walk[i], inlay) {
            let i = choose|i: int|
                0 <= i < walk.len() && inserts_in(change, #[trigger] walk[i], inlay);
            if i < rest.len() {
                assert(rest[i] == walk[i]);
            }
        }
    }
}

/// Whether the change inserts the inlay for a hint of the excerpt.
spec fn inserts_in(change: KindsChange, excerpt_id: ExcerptId, inlay: Inlay) -> bool {
    inlays_of(change.inserted_in(excerpt_id), excerpt_id, &change.multi_buffer).contains(inlay)
}

proof fn lemma_hint_ids_contains(hints: Seq<(InlayId, HintView)>, id: InlayId)
    ensures
        hint_ids(hints).contains(id) <==> exists|i: int|
            0 <= i < hints.len() && (#[trigger] hints[i]).0 == id,
{
    if hint_ids(hints).contains(id) {
        let i = choose|i: int| 0 <= i < hint_ids(hints).len() && hint_ids(hints)[i] == id;
        assert(hints[i].0 == id);
    }
    if exists|i: int| 0 <= i < hints.len() && (#[trigger] hints[i]).0 == id {
        let i = choose|i: int| 0 <= i < hints.len() && (#[trigger] hints[i]).0 == id;
        assert(hint_ids(hints)[i] == id);
    }
}

/// The ids of the hints that a filter keeps are those of hints of which it holds.
pub(crate) proof fn lemma_filtered_ids(
    hints: Seq<(InlayId, HintView)>,
    keep: spec_fn((InlayId, HintView)) -> bool,
    id: InlayId,
)
    ensures
        hint_ids(hints.filter(keep)).contains(id) <==> exists|i: int|
            0 <= i < hints.len() && (#[trigger] hints[i]).0 == id && keep(hints[i]),
{
    let kept = hints.filter(keep);
    lemma_hint_ids_contains(kept, id);
    if hint_ids(kept).contains(id) {
        let k = choose|k: int| 0 <= k < kept.len() && (#[trigger] kept[k]).0 == id;
        assert(kept.contains(kept[k]));
        lemma_filter_contains_iff(hints, keep, kept[k]);
        let i = choose|i: int| 0 <= i < hints.len() && hints[i] == kept[k];
        assert(hints[i].0 == id && keep(hints[i]));
    }
    if exists|i: int| 0 <= i < hints.len() && (#[trigger] hints[i]).0 == id && keep(hints[i]) {
        let i = choose|i: int|
            0 <= i < hints.len() && (#[trigger] hints[i]).0 == id && keep(hints[i]);
        lemma_filter_contains_iff(hints, keep, hints[i]);
        let k = choose|k: int| 0 <= k < kept.len() && kept[k] == hints[i];
        assert(kept[k].0 == id);
    }
}

/// Whether the shown hints of every excerpt can be looked up among its cached hints.
pub open spec fn can_look_up_shown(cache: CacheView, multi_buffer: &MultiBufferSnapshot) -> bool {
    forall|id: ExcerptId|
        (#[trigger] cache.hints_of(id)).filter(of_kinds(cache.allowed_hint_kinds)).len() > 0
            ==> can_look_up(cache.hints_of(id), id, multi_buffer)
}

proof fn lemma_splice_shows_new_kinds(
    before: CacheView,
    after: CacheView,
    walk: Seq<ExcerptId>,
    multi_buffer: &MultiBufferSnapshot,
    visible_hints: Seq<Inlay>,
)
    requires
        shows_cached(before, visible_hints, multi_buffer),
        ids_unique(before),
        can_look_up_shown(before, multi_buffer),
        after.hints == before.hints,
        before.change_of_kinds(multi_buffer, visible_hints, after.allowed_hint_kinds).is_walk(walk),
    ensures
        inlays_after(
            visible_hints,
            before.change_of_kinds(multi_buffer, visible_hints, after.allowed_hint_kinds).splice(
                walk,
            ),
        ) == allowed_inlays(after, multi_buffer),
{
    let change = before.change_of_kinds(multi_buffer, visible_hints, after.allowed_hint_kinds);
    let gone = no_longer_allowed(change.old_kinds, change.new_kinds);
    let fresh = newly_allowed(change.old_kinds, change.new_kinds);
    let splice = change.splice(walk);
    lemma_shown_iff_allowed(before, visible_hints, multi_buffer);
    assert forall|e: ExcerptId|
        change.removed_in(e) == hint_ids((#[trigger] before.hints_of(e)).filter(gone))
            && change.inserted_in(e) == before.hints_of(e).filter(fresh) by {
        assert(change.shown_in(e) == visible_hints.filter(in_excerpt(e)));
        assert(hint_ids(before.hints_of(e)).no_duplicates());
        if change.hints.contains_key(e) {
            law_kinds_change_in_excerpt(change, e);
        } else {
            reveal(Seq::filter);
            assert(change.removed_in(e) =~= hint_ids(before.hints_of(e).filter(gone)));
        }
    }
    assert forall|e: ExcerptId| #[trigger] after.hints_of(e) == before.hints_of(e) by {}
    assert forall|inlay: Inlay| inlays_after(visible_hints, splice).contains(inlay)
        <==> allowed_inlays(after, multi_buffer).contains(inlay) by {
        let e = inlay.position.excerpt_id;
        let cached = before.hints_of(e);
        lemma_removed_contains(change, walk, inlay.id);
        lemma_inserted_contains(change, walk, inlay);
        if allowed_inlays(after, multi_buffer).contains(inlay) {
            let i = choose|i: int| shows_at(after, multi_buffer, inlay, i);
            let hint = cached[i];
            if change.old_kinds.contains(hint.1.kind) {
                assert(shows_at(before, multi_buffer, inlay, i));
                if splice.to_remove.contains(inlay.id) {
                    let k = choose|k: int|
                        0 <= k < walk.len() && change.removed_in(#[trigger] walk[k]).contains(
                            inlay.id,
                        );
                    let other = walk[k];
                    lemma_filtered_ids(before.hints_of(other), gone, inlay.id);
                    let j = choose|j: int|
                        0 <= j < before.hints_of(other).len() && (
                        #[trigger] before.hints_of(other)[j]).0 == inlay.id && gone(
                            before.hints_of(other)[j],
                        );
                    lemma_unique(before, e, i, other, j);
                    assert(false);
                }
            } else {
                assert(fresh(hint));
                assert(is_inlay_of(inlay, cached[i], e, multi_buffer));
                lemma_filtered_inlays(cached, fresh, e, multi_buffer, inlay);
                assert(inserts_in(change, e, inlay));
                assert(walk.contains(e));
                let k = choose|k: int| 0 <= k < walk.len() && walk[k] == e;
                assert(inserts_in(change, walk[k], inlay));
            }
        }
        if inserted_inlays(splice.to_insert).contains(inlay) {
            let k = choose|k: int|
                0 <= k < walk.len() && inserts_in(change, #[trigger] walk[k], inlay);
            let other = walk[k];
            lemma_filtered_inlays(before.hints_of(other), fresh, other, multi_buffer, inlay);
            let i = choose|i: int|
                0 <= i < before.hints_of(other).len() && is_inlay_of(
                    inlay,
                    #[trigger] before.hints_of(other)[i],
                    other,
                    multi_buffer,
                ) && fresh(before.hints_of(other)[i]);
            assert(shows_at(after, multi_buffer, inlay, i));
        } else if inlays_after(visible_hints, splice).contains(inlay) {
            let i = choose|i: int| shows_at(before, multi_buffer, inlay, i);
            let hint = cached[i];
            if !change.new_kinds.contains(hint.1.kind) {
                assert(gone(hint));
                lemma_filtered_ids(cached, gone, inlay.id);
                assert(change.removed_in(e).contains(inlay.id));
                assert(walk.contains(e));
                let k = choose|k: int| 0 <= k < walk.len() && walk[k] == e;
                assert(change.removed_in(walk[k]).contains(inlay.id));
                assert(false);
            }
            assert(shows_at(after, multi_buffer, inlay, i));
        }
    }
    assert(inlays_after(visible_hints, splice) =~= allowed_inlays(after, multi_buffer));
}

/// Where the editor shows the cached hints of the allowed kinds, it still does so after it has
/// made the change that new settings ask for: it shows inlays exactly for those hints, with
/// their ids and at their positions. If it keeps the inlays of each excerpt in the order of the
/// cached hints, what holds before the change holds after it.
///
/// The buffers of the shown hints have to be there, with the cached hints in the order of
/// their positions, and hints may not be cached while they are not shown at all.
pub proof fn law_settings_change_is_shown(
    before: CacheView,
    after: CacheView,
    flow: SettingsFlow,
    multi_buffer: &MultiBufferSnapshot,
    settings: InlayHintSettings,
    visible_hints: Seq<Inlay>,
)
    requires
        before.settings_change_to(after, flow, multi_buffer, settings, visible_hints),
        shows_cached(before, visible_hints, multi_buffer),
        ids_unique(before),
        can_look_up_shown(before, multi_buffer),
        !before.enabled ==> before.hints == Map::<ExcerptId, ExcerptHintsView>::empty(),
    ensures
        inlays_after(visible_hints, splice_of(flow)) == allowed_inlays(after, multi_buffer),
        shown_after(visible_hints, splice_of(flow)) == allowed_ids(after),
        forall|inlays: Seq<Inlay>|
            inlays.to_set() == inlays_after(visible_hints, splice_of(flow)) && in_cached_order(
                after,
                inlays,
            ) ==> #[trigger] shows_cached(after, inlays, multi_buffer),
        ids_unique(after),
        !after.enabled ==> after.hints == Map::<ExcerptId, ExcerptHintsView>::empty(),
{
    lemma_shown_iff_allowed(before, visible_hints, multi_buffer);
    let kinds = settings.spec_enabled_inlay_hint_kinds();
    let change = before.change_of_kinds(multi_buffer, visible_hints, kinds);
    lemma_nothing_spliced(visible_hints);
    if before.enabled && settings.enabled {
        assert forall|id: ExcerptId| #[trigger] after.hints_of(id) == before.hints_of(id) by {}
        if kinds != before.allowed_hint_kinds {
            let walk = choose|walk: Seq<ExcerptId>| #[trigger]
                change.is_walk(walk) && flow == SettingsFlow::Break(
                    unless_empty(change.splice(walk)),
                );
            if flow != SettingsFlow::Break(None) {
                lemma_splice_shows_new_kinds(before, after, walk, multi_buffer, visible_hints);
            }
        }
    } else {
        assert(after.hints == Map::<ExcerptId, ExcerptHintsView>::empty());
        assert forall|id: ExcerptId| (#[trigger] after.hints_of(id)).len() == 0 by {}
        if before.hints == Map::<ExcerptId, ExcerptHintsView>::empty() {
            assert forall|id: ExcerptId| (#[trigger] before.hints_of(id)).len() == 0 by {}
        }
        let splice = splice_of(flow);
        assert forall|inlay: Inlay| !inlays_after(visible_hints, splice).contains(inlay) by {
            if visible_hints.contains(inlay) {
                let k = choose|k: int| 0 <= k < visible_hints.len() && visible_hints[k] == inlay;
                assert(inlay_ids(visible_hints)[k] == inlay.id);
            }
        }
        assert(inlays_after(visible_hints, splice) =~= allowed_inlays(after, multi_buffer));
    }
    lemma_ids_after(after, visible_hints, splice_of(flow), multi_buffer);
    assert forall|inlays: Seq<Inlay>|
        inlays.to_set() == inlays_after(visible_hints, splice_of(flow)) && in_cached_order(
            after,
            inlays,
        ) implies #[trigger] shows_cached(after, inlays, multi_buffer) by {
        law_inlays_in_order_are_shown(after, inlays, multi_buffer);
    }
}

/// A splice without inlays and hints leaves what is shown.
proof fn lemma_nothing_spliced(visible_hints: Seq<Inlay>)
    ensures
        inlays_after(
            visible_hints,
            SpliceView { to_remove: Seq::empty(), to_insert: Seq::empty() },
        ) == visible_hints.to_set(),
{
    let none = SpliceView { to_remove: Seq::empty(), to_insert: Seq::empty() };
    assert(inlays_after(visible_hints, none) =~= visible_hints.to_set());
}

/// The place of the hint with this id.
spec fn place_of(hints: Seq<(InlayId, HintView)>, id: InlayId) -> int {
    choose|k: int| 0 <= k < hints.len() && (#[trigger] hints[k]).0 == id
}

/// An editor that has inlays exactly for the cached hints of the allowed kinds, and those of
/// each excerpt in the order of the hints, shows what is cached.
pub proof fn law_inlays_in_order_are_shown(
    cache: CacheView,
    inlays: Seq<Inlay>,
    multi_buffer: &MultiBufferSnapshot,
)
    requires
        ids_unique(cache),
        inlays.to_set() == allowed_inlays(cache, multi_buffer),
        in_cached_order(cache, inlays),
    ensures
        shows_cached(cache, inlays, multi_buffer),
{
    let allowed = of_kinds(cache.allowed_hint_kinds);
    assert forall|e: ExcerptId| #[trigger]
        inlays.filter(in_excerpt(e)) == inlays_of(
            cache.hints_of(e).filter(allowed),
            e,
            multi_buffer,
        ) by {
        let cached = cache.hints_of(e);
        let kept = cached.filter(allowed);
        let shown = inlays.filter(in_excerpt(e));
        let wanted = inlays_of(kept, e, multi_buffer);
        let hint_key = |hint: (InlayId, HintView)| place_of(cached, hint.0);
        let key = |inlay: Inlay| place_of(cached, inlay.id);
        assert forall|i: int| 0 <= i < cached.len() implies place_of(
            cached,
            (#[trigger] cached[i]).0,
        ) == i by {
            lemma_unique(cache, e, i, e, place_of(cached, cached[i].0));
        }
        lemma_filter_increasing(cached, allowed, hint_key);
        assert forall|i: int, j: int| 0 <= i < j < wanted.len() implies key(#[trigger] wanted[i])
            < key(#[trigger] wanted[j]) by {
            assert(hint_key(kept[i]) < hint_key(kept[j]));
        }
        assert forall|a: int, b: int|
            0 <= a < b < inlays.len() && in_excerpt(e)(#[trigger] inlays[a]) && in_excerpt(e)(
                #[trigger] inlays[b],
            ) implies key(inlays[a]) < key(inlays[b]) by {
            assert(inlays.to_set().contains(inlays[a]));
            assert(inlays.to_set().contains(inlays[b]));
            let k = choose|k: int| shows_at(cache, multi_buffer, inlays[a], k);
            let l = choose|l: int| shows_at(cache, multi_buffer, inlays[b], l);
            assert(cache.hints_of(inlays[a].position.excerpt_id)[k].0 == inlays[a].id);
            assert(cache.hints_of(inlays[b].position.excerpt_id)[l].0 == inlays[b].id);
            assert(key(inlays[a]) == k && key(inlays[b]) == l);
        }
        lemma_filter_increasing(inlays, in_excerpt(e), key);
        assert forall|inlay: Inlay| #[trigger]
            shown.contains(inlay) <==> wanted.contains(inlay) by {
            lemma_filter_contains_iff(inlays, in_excerpt(e), inlay);
            lemma_filtered_inlays(cached, allowed, e, multi_buffer, inlay);
            if shown.contains(inlay) {
                assert(inlays.to_set().contains(inlay));
                let i = choose|i: int| shows_at(cache, multi_buffer, inlay, i);
                assert(is_inlay_of(inlay, cached[i], e, multi_buffer));
            }
            if wanted.contains(inlay) {
                let i = choose|i: int|
                    0 <= i < cached.len() && is_inlay_of(
                        inlay,
                        #[trigger] cached[i],
                        e,
                        multi_buffer,
                    ) && allowed(cached[i]);
                assert(shows_at(cache, multi_buffer, inlay, i));
                assert(inlays.to_set().contains(inlay));
            }
        }
        lemma_same_order(shown, wanted, key);
    }
}

/// Whether the hints of every excerpt that has any can be looked up.
pub open spec fn can_look_up_all(cache: CacheView, multi_buffer: &MultiBufferSnapshot) -> bool {
    forall|id: ExcerptId|
        (#[trigger] cache.hints_of(id)).len() > 0 ==> can_look_up(
            cache.hints_of(id),
            id,
            multi_buffer,
        )
}

/// Where all cached hints can be looked up, those that are shown can.
pub(crate) proof fn lemma_look_up_shown(cache: CacheView, multi_buffer: &MultiBufferSnapshot)
    requires
        can_look_up_all(cache, multi_buffer),
    ensures
        can_look_up_shown(cache, multi_buffer),
{
    assert forall|id: ExcerptId|
        (#[trigger] cache.hints_of(id)).filter(of_kinds(cache.allowed_hint_kinds)).len()
            > 0 implies can_look_up(cache.hints_of(id), id, multi_buffer) by {
        reveal(Seq::filter);
    }
}

/// Where all cached hints can be looked up, they still can after new settings, and so can those
/// that are shown then.
pub proof fn law_settings_change_keeps_look_up(
    before: CacheView,
    after: CacheView,
    flow: SettingsFlow,
    multi_buffer: &MultiBufferSnapshot,
    settings: InlayHintSettings,
    visible_hints: Seq<Inlay>,
)
    requires
        before.settings_change_to(after, flow, multi_buffer, settings, visible_hints),
        can_look_up_all(before, multi_buffer),
    ensures
        can_look_up_all(after, multi_buffer),
        can_look_up_shown(after, multi_buffer),
{
    if after.hints == before.hints {
        assert forall|id: ExcerptId| #[trigger] after.hints_of(id) == before.hints_of(id) by {}
    } else {
        assert forall|id: ExcerptId| (#[trigger] after.hints_of(id)).len() == 0 by {}
    }
    lemma_look_up_shown(after, multi_buffer);
}

/// New settings that are taken over a second time change nothing more, and ask for no change
/// of the editor.
///
/// Where the first time asked for no change of the editor, it shows the same inlays the second
/// time.
pub proof fn law_same_settings_twice(
    before: CacheView,
    once: CacheView,
    twice: CacheView,
    first_flow: SettingsFlow,
    second_flow: SettingsFlow,
    multi_buffer: &MultiBufferSnapshot,
    settings: InlayHintSettings,
    visible_before: Seq<Inlay>,
    visible_once: Seq<Inlay>,
)
    requires
        before.settings_change_to(once, first_flow, multi_buffer, settings, visible_before),
        once.settings_change_to(twice, second_flow, multi_buffer, settings, visible_once),
        first_flow == SettingsFlow::Break(None) ==> visible_once == visible_before,
    ensures
        twice == once,
        second_flow == SettingsFlow::Break(None),
{
    let kinds = settings.spec_enabled_inlay_hint_kinds();
    if before.enabled && settings.enabled && once.allowed_hint_kinds != kinds {
        // No hint appeared or disappeared, so that the second time is as the first.
        let change = before.change_of_kinds(multi_buffer, visible_before, kinds);
        let walk = choose|walk: Seq<ExcerptId>| #[trigger]
            change.is_walk(walk) && first_flow == SettingsFlow::Break(
                unless_empty(change.splice(walk)),
            );
        let other = choose|other: Seq<ExcerptId>| #[trigger]
            change.is_walk(other) && second_flow == SettingsFlow::Break(
                unless_empty(change.splice(other)),
            );
        lemma_walks_agree(change, walk, other);
    }
}

/// A change of the allowed kinds that is undone restores what is shown: where the editor shows
/// the cached hints of the allowed kinds before and after the change, and the settings then
/// choose the kinds from before, it shows the same inlays in the end.
///
/// The buffers of the shown hints have to be there, with the cached hints in the order of
/// their positions.
pub proof fn law_kinds_there_and_back(
    before: CacheView,
    there: CacheView,
    back: CacheView,
    first_flow: SettingsFlow,
    second_flow: SettingsFlow,
    multi_buffer: &MultiBufferSnapshot,
    settings_there: InlayHintSettings,
    settings_back: InlayHintSettings,
    visible_before: Seq<Inlay>,
    visible_there: Seq<Inlay>,
)
    requires
        before.enabled,
        settings_there.enabled,
        settings_back.enabled,
        settings_back.spec_enabled_inlay_hint_kinds() == before.allowed_hint_kinds,
        before.settings_change_to(there, first_flow, multi_buffer, settings_there, visible_before),
        there.settings_change_to(back, second_flow, multi_buffer, settings_back, visible_there),
        shows_cached(before, visible_before, multi_buffer),
        shows_cached(there, visible_there, multi_buffer),
        ids_unique(before),
        can_look_up_shown(there, multi_buffer),
    ensures
        inlays_after(visible_there, splice_of(second_flow)) == visible_before.to_set(),
        back.hints == before.hints,
{
    let kinds = before.allowed_hint_kinds;
    let none = SpliceView { to_remove: Seq::empty(), to_insert: Seq::empty() };
    lemma_shown_iff_allowed(before, visible_before, multi_buffer);
    lemma_shown_iff_allowed(there, visible_there, multi_buffer);
    lemma_nothing_spliced(visible_there);
    assert forall|id: ExcerptId| #[trigger] there.hints_of(id) == before.hints_of(id) by {}
    if there.allowed_hint_kinds != kinds {
        let change = there.change_of_kinds(multi_buffer, visible_there, kinds);
        let walk = choose|walk: Seq<ExcerptId>| #[trigger]
            change.is_walk(walk) && second_flow == SettingsFlow::Break(
                unless_empty(change.splice(walk)),
            );
        let wanted = there.with_other_kinds(kinds);
        lemma_splice_shows_new_kinds(there, wanted, walk, multi_buffer, visible_there);
        lemma_same_allowed_inlays(wanted, before, multi_buffer);
        if change.splice(walk).is_empty() {
            assert(change.splice(walk) =~= none);
        }
    } else {
        lemma_same_allowed_inlays(there, before, multi_buffer);
    }
}

proof fn lemma_same_allowed_inlays(
    a: CacheView,
    b: CacheView,
    multi_buffer: &MultiBufferSnapshot,
)
    requires
        a.hints == b.hints,
        a.allowed_hint_kinds == b.allowed_hint_kinds,
    ensures
        allowed_inlays(a, multi_buffer) == allowed_inlays(b, multi_buffer),
{
    assert forall|inlay: Inlay, i: int| #[trigger]
        shows_at(a, multi_buffer, inlay, i) == shows_at(b, multi_buffer, inlay, i) by {
        assert(a.hints_of(inlay.position.excerpt_id) == b.hints_of(inlay.position.excerpt_id));
    }
    assert forall|inlay: Inlay| allowed_inlays(a, multi_buffer).contains(inlay)
        <==> allowed_inlays(b, multi_buffer).contains(inlay) by {
        if allowed_inlays(b, multi_buffer).contains(inlay) {
            let i = choose|i: int| shows_at(b, multi_buffer, inlay, i);
            assert(shows_at(a, multi_buffer, inlay, i));
        }
        if allowed_inlays(a, multi_buffer).contains(inlay) {
            let i = choose|i: int| shows_at(a, multi_buffer, inlay, i);
            assert(shows_at(b, multi_buffer, inlay, i));
        }
    }
    assert(allowed_inlays(a, multi_buffer) =~= allowed_inlays(b, multi_buffer));
}

/// Where nothing is cached and nothing is shown, as at first and after hints have been
/// switched off, the editor shows what is cached, and no id is taken.
pub proof fn law_empty_cache_is_shown(cache: CacheView, multi_buffer: &MultiBufferSnapshot)
    requires
        cache.hints == Map::<ExcerptId, ExcerptHintsView>::empty(),
    ensures
        shows_cached(cache, Seq::empty(), multi_buffer),
        can_look_up_shown(cache, multi_buffer),
        ids_unique(cache),
        ids_below(cache, 0),
{
    reveal(Seq::filter);
    assert forall|id: ExcerptId| #[trigger]
        Seq::<Inlay>::empty().filter(in_excerpt(id)) == inlays_of(
            cache.hints_of(id).filter(of_kinds(cache.allowed_hint_kinds)),
            id,
            multi_buffer,
        ) by {
        assert(cache.hints_of(id).len() == 0);
        assert(Seq::<Inlay>::empty().filter(in_excerpt(id)) =~= inlays_of(
            cache.hints_of(id).filter(of_kinds(cache.allowed_hint_kinds)),
            id,
            multi_buffer,
        ));
    }
}

/// New settings leave every cached hint its id.
pub proof fn law_settings_change_keeps_ids_unique(
    before: CacheView,
    after: CacheView,
    flow: SettingsFlow,
    multi_buffer: &MultiBufferSnapshot,
    settings: InlayHintSettings,
    visible_hints: Seq<Inlay>,
    next_inlay_id: int,
)
    requires
        before.settings_change_to(after, flow, multi_buffer, settings, visible_hints),
        ids_unique(before),
        ids_below(before, next_inlay_id),
    ensures
        ids_unique(after),
        ids_below(after, next_inlay_id),
{
    if after.hints == before.hints {
        assert forall|id: ExcerptId| #[trigger] after.hints_of(id) == before.hints_of(id) by {}
    } else {
        assert forall|id: ExcerptId| (#[trigger] after.hints_of(id)).len() == 0 by {}
    }
}

/// Two cached hints with one id are one hint.
pub(crate) proof fn lemma_unique(cache: CacheView, a: ExcerptId, i: int, b: ExcerptId, j: int)
    requires
        ids_unique(cache),
        0 <= i < cache.hints_of(a).len(),
        0 <= j < cache.hints_of(b).len(),
        cache.hints_of(a)[i].0 == cache.hints_of(b)[j].0,
    ensures
        a == b,
        i == j,
{
    if a == b && i != j {
        let ids = hint_ids(cache.hints_of(a));
        assert(ids[i] != ids[j]);
    }
}

} // verus!
