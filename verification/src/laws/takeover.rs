//! What taking over an update does to the cache and tells the editor.

use vstd::prelude::*;

use crate::anchor::{Anchor, BufferSnapshot, ExcerptId, MultiBufferSnapshot};
use crate::cache::{not_removed, numbered, of_kinds, CacheView};
use crate::hint::{HintView, InlayId};
use crate::laws::order::{law_sorted_hints_are_in_order, law_sorting_keeps_order_at_one_position};
use crate::sequences::{
    lemma_concat_contains, lemma_filter_contains_iff, lemma_filter_then_map, lemma_same_filter,
};
use crate::splice::{anchored, unless_empty, SpliceView};
use crate::updates::UpdateView;

verus! {

/// An update that is handed to a cache.
pub struct Takeover {
    pub before: CacheView,
    pub after: CacheView,
    pub update: UpdateView,
    /// The next id to give before and after.
    pub first_id: usize,
    pub next_id: usize,
    pub buffer: BufferSnapshot,
    pub multi_buffer: MultiBufferSnapshot,
    pub splice: Option<SpliceView>,
}

impl Takeover {
    /// Whether this is how the cache takes the update.
    pub open spec fn happens(self) -> bool {
        &&& self.before.is_outdated(self.update) ==> {
            &&& self.after == self.before
            &&& self.next_id == self.first_id
            &&& self.splice is None
        }
        &&& !self.before.is_outdated(self.update) ==> {
            &&& self.before.updates_to(self.after, self.update, self.first_id, &self.buffer)
            &&& self.next_id == self.first_id + self.update.add_to_cache.len()
            &&& self.splice == unless_empty(
                self.before.update_splice(self.update, self.first_id, &self.multi_buffer),
            )
        }
    }

    /// Whether nothing is cached for the excerpt, or what was asked for no later than the
    /// update.
    pub open spec fn is_due(self) -> bool {
        let id = self.update.excerpt_id;
        self.before.hints.contains_key(id) ==> self.before.hints[id].version
            <= self.update.cache_version
    }

    /// The hints that were cached for the excerpt.
    pub open spec fn old_hints(self) -> Seq<(InlayId, HintView)> {
        let id = self.update.excerpt_id;
        if self.before.hints.contains_key(id) {
            self.before.hints[id].hints
        } else {
            Seq::empty()
        }
    }

    /// The hints that are cached for the excerpt afterwards.
    pub open spec fn new_hints(self) -> Seq<(InlayId, HintView)> {
        self.after.hints[self.update.excerpt_id].hints
    }

    /// The cached hints that stay, in their order, and after them the added ones with the ids
    /// that follow on.
    pub open spec fn kept_and_added(self) -> Seq<(InlayId, HintView)> {
        self.old_hints().filter(
            |hint: (InlayId, HintView)| !self.update.remove_from_cache.contains(hint.0),
        ) + Seq::new(
            self.update.add_to_cache.len(),
            |k: int| (InlayId::Hint((self.first_id + k) as usize), self.update.add_to_cache[k]),
        )
    }

    /// The position in the multi-buffer of the added hint `k`.
    pub open spec fn position_of(self, k: int) -> Anchor {
        let id = self.update.excerpt_id;
        Anchor {
            buffer_id: if self.multi_buffer.excerpts@.contains_key(id) {
                Some(self.multi_buffer.excerpts@[id])
            } else {
                None
            },
            excerpt_id: id,
            text_anchor: self.update.add_to_cache[k].position,
        }
    }
}

/// An update is dropped only where hints are cached for its excerpt that were asked for later:
/// then nothing changes and no id is given.
pub proof fn law_outdated_update_is_dropped(takeover: Takeover)
    requires
        takeover.happens(),
        takeover.before.hints.contains_key(takeover.update.excerpt_id),
        takeover.before.hints[takeover.update.excerpt_id].version
            > takeover.update.cache_version,
    ensures
        takeover.after == takeover.before,
        takeover.next_id == takeover.first_id,
        takeover.splice is None,
{
}

/// An update for an excerpt for which nothing is cached, or nothing that was asked for later,
/// is taken over, whatever the version of the cache: the version rises by one, an id is given to
/// each added hint, the excerpt has the versions of the update and of the buffer, and all else
/// stays.
pub proof fn law_due_update_is_taken_over(takeover: Takeover, other: ExcerptId)
    requires
        takeover.happens(),
        takeover.is_due(),
        other != takeover.update.excerpt_id,
    ensures
        takeover.after.version == takeover.before.version + 1,
        takeover.next_id == takeover.first_id + takeover.update.add_to_cache.len(),
        takeover.after.hints.contains_key(takeover.update.excerpt_id),
        takeover.after.hints[takeover.update.excerpt_id].version
            == takeover.update.cache_version,
        takeover.after.hints[takeover.update.excerpt_id].buffer_version
            == takeover.buffer.version.values@,
        takeover.after.hints.get(other) == takeover.before.hints.get(other),
        takeover.after.update_tasks == takeover.before.update_tasks,
        takeover.after.enabled == takeover.before.enabled,
        takeover.after.allowed_hint_kinds == takeover.before.allowed_hint_kinds,
{
}

proof fn lemma_kept_and_added(takeover: Takeover)
    ensures
        takeover.before.updated_hints(takeover.update, takeover.first_id)
            == takeover.kept_and_added(),
{
    let removed = takeover.update.remove_from_cache;
    lemma_same_filter(
        takeover.old_hints(),
        not_removed(removed),
        |hint: (InlayId, HintView)| !takeover.update.remove_from_cache.contains(hint.0),
    );
    assert(takeover.before.updated_hints(takeover.update, takeover.first_id)
        =~= takeover.kept_and_added());
}

/// After an update is taken over, the excerpt has its hints that were not to be removed and all
/// that were to be added, no others and none more often, in the order of their positions in the
/// buffer. Hints at one position are in the order in which they were cached, the added ones
/// after them in the order in which they were added.
pub proof fn law_due_update_is_cached(takeover: Takeover, i: int, j: int)
    requires
        takeover.happens(),
        takeover.is_due(),
        takeover.first_id + takeover.update.add_to_cache.len() <= usize::MAX,
    ensures
        takeover.new_hints().to_multiset() == takeover.kept_and_added().to_multiset(),
        0 <= i < j < takeover.new_hints().len() ==> takeover.buffer.rank(
            takeover.new_hints()[i].1.position,
        ) <= takeover.buffer.rank(takeover.new_hints()[j].1.position),
        0 <= i < j < takeover.kept_and_added().len() && takeover.buffer.rank(
            takeover.kept_and_added()[i].1.position,
        ) == takeover.buffer.rank(takeover.kept_and_added()[j].1.position) ==> exists|
            k: int,
            l: int,
        |
            0 <= k < l < takeover.new_hints().len() && #[trigger] takeover.new_hints()[k]
                == takeover.kept_and_added()[i] && #[trigger] takeover.new_hints()[l]
                == takeover.kept_and_added()[j],
        0 <= i < takeover.old_hints().len() ==> (takeover.new_hints().contains(
            takeover.old_hints()[i],
        ) || takeover.update.remove_from_cache.contains(takeover.old_hints()[i].0)),
        0 <= i < takeover.update.add_to_cache.len() ==> takeover.new_hints().contains(
            (InlayId::Hint((takeover.first_id + i) as usize), takeover.update.add_to_cache[i]),
        ),
{
    lemma_kept_and_added(takeover);
    let all = takeover.kept_and_added();
    let hints = takeover.new_hints();
    law_sorted_hints_are_in_order(all, hints, &takeover.buffer);
    if 0 <= i < j < all.len() && takeover.buffer.rank(all[i].1.position) == takeover.buffer.rank(
        all[j].1.position,
    ) {
        law_sorting_keeps_order_at_one_position(all, hints, &takeover.buffer, i, j);
    }
    let keep = |hint: (InlayId, HintView)| !takeover.update.remove_from_cache.contains(hint.0);
    let kept = takeover.old_hints().filter(keep);
    let added = Seq::new(
        takeover.update.add_to_cache.len(),
        |k: int|
            (InlayId::Hint((takeover.first_id + k) as usize), takeover.update.add_to_cache[k]),
    );
    assert(all =~= kept + added);
    if 0 <= i < takeover.old_hints().len() {
        let hint = takeover.old_hints()[i];
        assert(takeover.old_hints().contains(hint));
        lemma_filter_contains_iff(takeover.old_hints(), keep, hint);
        lemma_concat_contains(kept, added, hint);
        assert(keep(hint) ==> all.contains(hint));
        assert(hints.contains(hint) <==> all.contains(hint));
    }
    if 0 <= i < added.len() {
        assert(added.contains(added[i]));
        lemma_concat_contains(kept, added, added[i]);
        assert(hints.contains(added[i]) <==> all.contains(added[i]));
    }
}

/// The editor is told to remove what the update says, and to insert the added hints of the
/// allowed kinds with their ids at their positions in the excerpt, in the order in which they
/// were added; it is told nothing if that is nothing.
pub proof fn law_due_update_tells_the_editor(takeover: Takeover)
    requires
        takeover.happens(),
        takeover.is_due(),
        takeover.first_id + takeover.update.add_to_cache.len() <= usize::MAX,
    ensures
        ({
            let to_insert = Seq::new(
                takeover.update.add_to_cache.len(),
                |k: int|
                    (
                        takeover.position_of(k),
                        InlayId::Hint((takeover.first_id + k) as usize),
                        takeover.update.add_to_cache[k],
                    ),
            ).filter(
                |hint: (Anchor, InlayId, HintView)|
                    takeover.before.allowed_hint_kinds.contains(hint.2.kind),
            );
            if takeover.update.remove_from_visible.len() == 0 && to_insert.len() == 0 {
                takeover.splice is None
            } else {
                &&& takeover.splice is Some
                &&& takeover.splice->0.to_remove == takeover.update.remove_from_visible
                &&& takeover.splice->0.to_insert == to_insert
            }
        }),
{
    let update = takeover.update;
    let id = update.excerpt_id;
    let kinds = takeover.before.allowed_hint_kinds;
    let all = numbered(update.add_to_cache, takeover.first_id);
    let place = |hint: (InlayId, HintView)|
        (
            takeover.multi_buffer.spec_anchor_in_excerpt(id, hint.1.position),
            hint.0,
            hint.1,
        );
    let keep = |hint: (Anchor, InlayId, HintView)|
        takeover.before.allowed_hint_kinds.contains(hint.2.kind);
    lemma_filter_then_map(all, of_kinds(kinds), place, keep);
    assert(anchored(all.filter(of_kinds(kinds)), id, &takeover.multi_buffer) =~= all.filter(
        of_kinds(kinds),
    ).map_values(place));
    let wanted = Seq::new(
        update.add_to_cache.len(),
        |k: int|
            (
                takeover.position_of(k),
                InlayId::Hint((takeover.first_id + k) as usize),
                update.add_to_cache[k],
            ),
    );
    assert(all.map_values(place) =~= wanted);
    lemma_same_filter(
        wanted,
        keep,
        |hint: (Anchor, InlayId, HintView)|
            takeover.before.allowed_hint_kinds.contains(hint.2.kind),
    );
}

/// An update for an excerpt for which nothing is cached is never dropped: every hint that it
/// adds is cached for the excerpt, and every one of an allowed kind is to be inserted.
pub proof fn law_first_update_of_an_excerpt_is_taken_over(takeover: Takeover, k: int)
    requires
        takeover.happens(),
        !takeover.before.hints.contains_key(takeover.update.excerpt_id),
        takeover.first_id + takeover.update.add_to_cache.len() <= usize::MAX,
        0 <= k < takeover.update.add_to_cache.len(),
    ensures
        takeover.after.hints.contains_key(takeover.update.excerpt_id),
        takeover.new_hints().contains(
            (InlayId::Hint((takeover.first_id + k) as usize), takeover.update.add_to_cache[k]),
        ),
        takeover.before.allowed_hint_kinds.contains(takeover.update.add_to_cache[k].kind) ==> {
            &&& takeover.splice is Some
            &&& takeover.splice->0.to_insert.contains(
                (
                    takeover.position_of(k),
                    InlayId::Hint((takeover.first_id + k) as usize),
                    takeover.update.add_to_cache[k],
                ),
            )
        },
{
    law_due_update_is_cached(takeover, k, k);
    law_due_update_tells_the_editor(takeover);
    let all = Seq::new(
        takeover.update.add_to_cache.len(),
        |k: int|
            (
                takeover.position_of(k),
                InlayId::Hint((takeover.first_id + k) as usize),
                takeover.update.add_to_cache[k],
            ),
    );
    let keep = |hint: (Anchor, InlayId, HintView)|
        takeover.before.allowed_hint_kinds.contains(hint.2.kind);
    assert(all.contains(all[k]));
    lemma_filter_contains_iff(all, keep, all[k]);
}

} // verus!
