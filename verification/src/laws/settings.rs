//! What new settings change, and what the editor has to do about it.

use vstd::prelude::*;

use crate::anchor::{Anchor, BufferSnapshot, ExcerptId, MultiBufferSnapshot};
use crate::cache::{CacheView, SettingsFlow};
use crate::hint::{HintView, Inlay, InlayHintKind, InlayHintSettings, InlayId};
use crate::laws::editor::lemma_removed_contains;
use crate::laws::kinds::lemma_halt;
use crate::sequences::{
    lemma_concat_contains, lemma_concat_no_duplicates, lemma_filter_contains_iff,
    lemma_filter_no_duplicates, lemma_same_filter,
};
use crate::splice::{
    anchored, halt_from, halts_at, in_excerpt, newly_allowed, unless_empty, KindsChange,
    SpliceView,
};
use crate::updates::{inlay_ids, ExcerptHintsView};

verus! {

/// Whether the settings choose hints of this kind.
pub open spec fn chooses(settings: InlayHintSettings, kind: Option<InlayHintKind>) -> bool {
    match kind {
        Some(InlayHintKind::Type) => settings.show_type_hints,
        Some(InlayHintKind::Parameter) => settings.show_parameter_hints,
        None => settings.show_other_hints,
    }
}

/// New settings that a cache is given, while an editor shows `visible_hints`.
pub struct SettingsChange {
    pub before: CacheView,
    pub after: CacheView,
    pub flow: SettingsFlow,
    pub multi_buffer: MultiBufferSnapshot,
    pub settings: InlayHintSettings,
    pub visible_hints: Seq<Inlay>,
}

impl SettingsChange {
    /// Whether this is how the cache takes the settings.
    pub open spec fn happens(self) -> bool {
        self.before.settings_change_to(
            self.after,
            self.flow,
            &self.multi_buffer,
            self.settings,
            self.visible_hints,
        )
    }

    /// Whether the settings choose another set of kinds than was allowed.
    pub open spec fn changes_kinds(self) -> bool {
        exists|kind: Option<InlayHintKind>|
            self.before.allowed_hint_kinds.contains(kind) != #[trigger] chooses(
                self.settings,
                kind,
            )
    }

    /// Whether the allowed kinds are those that the settings choose in the end.
    pub open spec fn takes_kinds(self) -> bool {
        forall|kind: Option<InlayHintKind>|
            self.after.allowed_hint_kinds.contains(kind) == #[trigger] chooses(self.settings, kind)
    }

    /// Whether hints are shown before and after, and of other kinds.
    pub open spec fn shows_other_kinds(self) -> bool {
        self.before.enabled && self.settings.enabled && self.changes_kinds()
    }
}

proof fn lemma_chosen(change: SettingsChange)
    ensures
        forall|kind: Option<InlayHintKind>|
            change.settings.spec_enabled_inlay_hint_kinds().contains(kind) == #[trigger] chooses(
                change.settings,
                kind,
            ),
        change.changes_kinds() <==> change.settings.spec_enabled_inlay_hint_kinds()
            != change.before.allowed_hint_kinds,
{
    let kinds = change.settings.spec_enabled_inlay_hint_kinds();
    if !change.changes_kinds() {
        assert forall|kind: Option<InlayHintKind>| kinds.contains(kind)
            <==> change.before.allowed_hint_kinds.contains(kind) by {
            assert(change.before.allowed_hint_kinds.contains(kind) == chooses(
                change.settings,
                kind,
            ));
        }
        assert(kinds =~= change.before.allowed_hint_kinds);
    }
}

/// While no hints are shown, new settings only choose kinds; if they switch hints on, the hints
/// have to be fetched.
pub proof fn law_settings_while_switched_off(change: SettingsChange)
    requires
        change.happens(),
        !change.before.enabled,
    ensures
        change.takes_kinds(),
        change.after.enabled == change.settings.enabled,
        change.after.hints == change.before.hints,
        change.after.version == change.before.version,
        change.after.update_tasks == change.before.update_tasks,
        change.settings.enabled ==> change.flow == SettingsFlow::Continue,
        !change.settings.enabled ==> change.flow == SettingsFlow::Break(None),
{
    lemma_chosen(change);
}

/// Settings that switch hints off empty the cache, and the editor has to remove all inlays that
/// it shows, in their order. The version rises by one and all tasks end, but only if hints of
/// any excerpt were cached; if none were, the tasks go on and the editor has nothing to do.
pub proof fn law_settings_that_switch_off(change: SettingsChange, cached: ExcerptId)
    requires
        change.happens(),
        change.before.enabled,
        !change.settings.enabled,
    ensures
        change.takes_kinds(),
        !change.after.enabled,
        forall|id: ExcerptId| !#[trigger] change.after.hints.contains_key(id),
        change.before.hints.contains_key(cached) ==> {
            &&& change.after.version == change.before.version + 1
            &&& forall|id: ExcerptId| !#[trigger] change.after.update_tasks.contains_key(id)
            &&& change.flow matches SettingsFlow::Break(Some(splice)) && splice.to_insert.len()
                == 0 && splice.to_remove.len() == change.visible_hints.len() && forall|i: int|
                0 <= i < change.visible_hints.len() ==> #[trigger] splice.to_remove[i]
                    == change.visible_hints[i].id
        },
        (forall|id: ExcerptId| !#[trigger] change.before.hints.contains_key(id)) ==> {
            &&& change.after.version == change.before.version
            &&& change.after.update_tasks == change.before.update_tasks
            &&& change.flow == SettingsFlow::Break(None)
        },
{
    lemma_chosen(change);
    if forall|id: ExcerptId| !#[trigger] change.before.hints.contains_key(id) {
        assert(change.before.hints =~= Map::<ExcerptId, ExcerptHintsView>::empty());
    }
}

/// While hints are shown, settings that choose the allowed kinds change nothing. Others change
/// nothing either if the editor has nothing to do; if it has, the version rises by one, all
/// tasks end, the chosen kinds are allowed, and the cached hints stay.
pub proof fn law_settings_while_switched_on(change: SettingsChange)
    requires
        change.happens(),
        change.before.enabled,
        change.settings.enabled,
    ensures
        !change.changes_kinds() ==> change.flow == SettingsFlow::Break(None),
        !(change.flow is Continue),
        change.flow == SettingsFlow::Break(None) ==> change.after == change.before,
        change.flow matches SettingsFlow::Break(Some(splice)) ==> {
            &&& splice.to_remove.len() > 0 || splice.to_insert.len() > 0
            &&& change.takes_kinds()
            &&& change.after.enabled
            &&& change.after.version == change.before.version + 1
            &&& change.after.hints == change.before.hints
            &&& forall|id: ExcerptId| !#[trigger] change.after.update_tasks.contains_key(id)
        },
{
    lemma_chosen(change);
}

/// New settings can be taken over unless they would raise the last version there is: that is
/// ruled out while no hints are shown, where the kinds stay, and where hints are switched off
/// and none are cached.
pub proof fn law_version_is_left_for_settings(change: SettingsChange)
    ensures
        change.before.version < usize::MAX || (change.before.version <= usize::MAX && (
        !change.before.enabled || (change.settings.enabled && !change.changes_kinds()) || (
        !change.settings.enabled && forall|id: ExcerptId|
            !#[trigger] change.before.hints.contains_key(id))))
            ==> change.before.has_version_for_settings(
            &change.multi_buffer,
            change.settings,
            change.visible_hints,
        ),
        change.before.has_version_for_settings(
            &change.multi_buffer,
            change.settings,
            change.visible_hints,
        ) && change.happens() ==> change.after.version <= usize::MAX,
        change.before.version == usize::MAX && change.before.enabled && !change.settings.enabled && (
        exists|id: ExcerptId| #[trigger] change.before.hints.contains_key(id))
            ==> !change.before.has_version_for_settings(
            &change.multi_buffer,
            change.settings,
            change.visible_hints,
        ),
{
    lemma_chosen(change);
    if forall|id: ExcerptId| !#[trigger] change.before.hints.contains_key(id) {
        assert(change.before.hints =~= Map::<ExcerptId, ExcerptHintsView>::empty());
    } else if change.before.enabled && !change.settings.enabled {
        let kinds = change.settings.spec_enabled_inlay_hint_kinds();
        assert(change.before.settings_change_to(
            change.before.with_settings(false, kinds).cleared(),
            SettingsFlow::Break(
                Some(
                    SpliceView {
                        to_remove: inlay_ids(change.visible_hints),
                        to_insert: Seq::empty(),
                    },
                ),
            ),
            &change.multi_buffer,
            change.settings,
            change.visible_hints,
        ));
    }
}

proof fn lemma_halt_bounds(
    buffer: &BufferSnapshot,
    cached: Seq<(InlayId, HintView)>,
    from: int,
    shown: Inlay,
)
    requires
        0 <= from <= cached.len(),
    ensures
        from <= halt_from(buffer, cached, from, shown) <= cached.len(),
        forall|i: int|
            from <= i < halt_from(buffer, cached, from, shown) ==> (#[trigger] cached[i]).0
                != shown.id,
    decreases cached.len() - from,
{
    if from < cached.len() && !halts_at(buffer, cached[from], shown) {
        lemma_halt_bounds(buffer, cached, from + 1, shown);
    }
}

/// What the change inserts between two places: the hints there whose kind is allowed now and was
/// not before.
proof fn lemma_appearing(
    change: KindsChange,
    cached: Seq<(InlayId, HintView)>,
    from: int,
    to: int,
    hint: (InlayId, HintView),
)
    requires
        0 <= from <= to <= cached.len(),
    ensures
        change.appearing(cached, from, to).contains(hint) <==> !change.old_kinds.contains(
            hint.1.kind,
        ) && change.new_kinds.contains(hint.1.kind) && exists|i: int|
            from <= i < to && #[trigger] cached[i] == hint,
        cached.no_duplicates() ==> change.appearing(cached, from, to).no_duplicates(),
{
    let part = cached.subrange(from, to);
    let keep = newly_allowed(change.old_kinds, change.new_kinds);
    lemma_filter_contains_iff(part, keep, hint);
    if part.contains(hint) {
        let k = choose|k: int| 0 <= k < part.len() && part[k] == hint;
        assert(cached[from + k] == hint);
    }
    if exists|i: int| from <= i < to && #[trigger] cached[i] == hint {
        let i = choose|i: int| from <= i < to && #[trigger] cached[i] == hint;
        assert(part[i - from] == hint);
    }
    if cached.no_duplicates() {
        assert forall|i: int, j: int|
            0 <= i < part.len() && 0 <= j < part.len() && i != j implies part[i] != part[j] by {
            assert(cached[from + i] != cached[from + j]);
        }
        lemma_filter_no_duplicates(part, keep);
    }
}

/// Whether the hint is one of the first `n` cached ones.
spec fn among_first(cached: Seq<(InlayId, HintView)>, n: int, hint: (InlayId, HintView)) -> bool {
    exists|i: int| 0 <= i < n && #[trigger] cached[i] == hint
}

proof fn lemma_scan_inserts(
    change: KindsChange,
    cached: Seq<(InlayId, HintView)>,
    shown: Seq<Inlay>,
)
    ensures
        0 <= change.scan(cached, shown).passed <= cached.len(),
        forall|hint: (InlayId, HintView)| #[trigger]
            change.scan(cached, shown).to_insert.contains(hint) ==> {
                &&& among_first(cached, change.scan(cached, shown).passed, hint)
                &&& !change.old_kinds.contains(hint.1.kind)
                &&& change.new_kinds.contains(hint.1.kind)
            },
        forall|i: int|
            0 <= i < change.scan(cached, shown).passed && !change.old_kinds.contains(
                (#[trigger] cached[i]).1.kind,
            ) && change.new_kinds.contains(cached[i].1.kind) && (forall|k: int|
                0 <= k < shown.len() ==> (#[trigger] shown[k]).id != cached[i].0)
                ==> change.scan(cached, shown).to_insert.contains(cached[i]),
        cached.no_duplicates() ==> change.scan(cached, shown).to_insert.no_duplicates(),
    decreases shown.len(),
{
    if shown.len() > 0 {
        let rest = shown.drop_last();
        let inlay = shown.last();
        lemma_scan_inserts(change, cached, rest);
        let before = change.scan(cached, rest);
        let scan = change.scan(cached, shown);
        assert(shown[shown.len() - 1] == inlay);
        match change.multi_buffer.spec_buffer(inlay.position.buffer_id) {
            Some(buffer) => {
                let halt = halt_from(buffer, cached, before.passed, inlay);
                lemma_halt_bounds(buffer, cached, before.passed, inlay);
                let more = change.appearing(cached, before.passed, halt);
                assert(scan.to_insert == before.to_insert + more);
                assert forall|hint: (InlayId, HintView)| #[trigger]
                    scan.to_insert.contains(hint) implies {
                    &&& among_first(cached, scan.passed, hint)
                    &&& !change.old_kinds.contains(hint.1.kind)
                    &&& change.new_kinds.contains(hint.1.kind)
                } by {
                    lemma_concat_contains(before.to_insert, more, hint);
                    lemma_appearing(change, cached, before.passed, halt, hint);
                    if before.to_insert.contains(hint) {
                        let i = choose|i: int|
                            0 <= i < before.passed && #[trigger] cached[i] == hint;
                        assert(cached[i] == hint && 0 <= i < scan.passed);
                    } else {
                        let i = choose|i: int|
                            before.passed <= i < halt && #[trigger] cached[i] == hint;
                        assert(cached[i] == hint && 0 <= i < scan.passed);
                    }
                }
                assert forall|i: int|
                    0 <= i < scan.passed && !change.old_kinds.contains(
                        (#[trigger] cached[i]).1.kind,
                    ) && change.new_kinds.contains(cached[i].1.kind) && (forall|k: int|
                        0 <= k < shown.len() ==> (#[trigger] shown[k]).id
                            != cached[i].0) implies scan.to_insert.contains(cached[i]) by {
                    lemma_concat_contains(before.to_insert, more, cached[i]);
                    lemma_appearing(change, cached, before.passed, halt, cached[i]);
                    assert(shown[shown.len() - 1].id != cached[i].0);
                    if i < before.passed {
                        assert forall|k: int| 0 <= k < rest.len() implies (#[trigger] rest[k]).id
                            != cached[i].0 by {
                            assert(rest[k] == shown[k]);
                        }
                        assert(before.to_insert.contains(cached[i]));
                    }
                }
                if cached.no_duplicates() {
                    lemma_appearing(change, cached, before.passed, halt, cached[0]);
                    lemma_parts_distinct(change, cached, before.to_insert, before.passed, halt);
                }
            },
            None => {
                assert forall|i: int|
                    0 <= i < scan.passed && !change.old_kinds.contains(
                        (#[trigger] cached[i]).1.kind,
                    ) && change.new_kinds.contains(cached[i].1.kind) && (forall|k: int|
                        0 <= k < shown.len() ==> (#[trigger] shown[k]).id
                            != cached[i].0) implies scan.to_insert.contains(cached[i]) by {
                    assert forall|k: int| 0 <= k < rest.len() implies (#[trigger] rest[k]).id
                        != cached[i].0 by {
                        assert(rest[k] == shown[k]);
                    }
                }
            },
        }
    }
}

proof fn lemma_parts_distinct(
    change: KindsChange,
    cached: Seq<(InlayId, HintView)>,
    first: Seq<(InlayId, HintView)>,
    from: int,
    to: int,
)
    requires
        cached.no_duplicates(),
        0 <= from <= to <= cached.len(),
        first.no_duplicates(),
        change.appearing(cached, from, to).no_duplicates(),
        forall|hint: (InlayId, HintView)| #[trigger]
            first.contains(hint) ==> among_first(cached, from, hint),
    ensures
        (first + change.appearing(cached, from, to)).no_duplicates(),
{
    let more = change.appearing(cached, from, to);
    let all = first + more;
    assert forall|a: int, b: int| 0 <= a < first.len() <= b < all.len() implies #[trigger] all[a]
        != #[trigger] all[b] by {
        assert(first.contains(all[a]));
        assert(more[b - first.len()] == all[b]);
        assert(more.contains(all[b]));
        lemma_appearing(change, cached, from, to, all[b]);
        let i = choose|i: int| 0 <= i < from && #[trigger] cached[i] == all[a];
        let j = choose|j: int| from <= j < to && #[trigger] cached[j] == all[b];
        assert(cached[i] != cached[j]);
    }
    assert forall|a: int, b: int| 0 <= a < all.len() && 0 <= b < all.len() && a != b implies all[a]
        != all[b] by {
        if a >= first.len() && b >= first.len() {
            assert(more[a - first.len()] != more[b - first.len()]);
        } else if a < first.len() && b < first.len() {
            assert(first[a] != first[b]);
        }
    }
}

proof fn lemma_scan_removes(
    change: KindsChange,
    cached: Seq<(InlayId, HintView)>,
    shown: Seq<Inlay>,
)
    ensures
        forall|id: InlayId| #[trigger]
            change.scan(cached, shown).to_remove.contains(id) ==> exists|k: int|
                0 <= k < shown.len() && (#[trigger] shown[k]).id == id
                    && change.multi_buffer.spec_buffer(shown[k].position.buffer_id) is Some,
        forall|k: int|
            0 <= k < shown.len() && change.multi_buffer.spec_buffer(
                (#[trigger] shown[k]).position.buffer_id,
            ) is Some && (forall|i: int|
                0 <= i < cached.len() && (#[trigger] cached[i]).0 == shown[k].id
                    ==> !change.new_kinds.contains(cached[i].1.kind)) ==> change.scan(
                cached,
                shown,
            ).to_remove.contains(shown[k].id),
        inlay_ids(shown).no_duplicates() ==> change.scan(cached, shown).to_remove.no_duplicates(),
    decreases shown.len(),
{
    if shown.len() > 0 {
        let rest = shown.drop_last();
        let inlay = shown.last();
        lemma_scan_removes(change, cached, rest);
        lemma_scan_inserts(change, cached, rest);
        let before = change.scan(cached, rest);
        let scan = change.scan(cached, shown);
        let last = shown.len() - 1;
        assert(shown[last] == inlay);
        assert forall|id: InlayId| #[trigger] scan.to_remove.contains(id) implies exists|k: int|
            0 <= k < shown.len() && (#[trigger] shown[k]).id == id
                && change.multi_buffer.spec_buffer(shown[k].position.buffer_id) is Some by {
            if before.to_remove.contains(id) {
                let k = choose|k: int|
                    0 <= k < rest.len() && (#[trigger] rest[k]).id == id
                        && change.multi_buffer.spec_buffer(rest[k].position.buffer_id) is Some;
                assert(shown[k] == rest[k]);
            } else {
                let k = choose|k: int| 0 <= k < scan.to_remove.len() && scan.to_remove[k] == id;
                if k < before.to_remove.len() {
                    assert(before.to_remove[k] == id);
                }
                assert(shown[last].id == id);
            }
        }
        assert forall|k: int|
            0 <= k < shown.len() && change.multi_buffer.spec_buffer(
                (#[trigger] shown[k]).position.buffer_id,
            ) is Some && (forall|i: int|
                0 <= i < cached.len() && (#[trigger] cached[i]).0 == shown[k].id
                    ==> !change.new_kinds.contains(cached[i].1.kind)) implies scan.to_remove.contains(
            shown[k].id,
        ) by {
            if k < last {
                assert(rest[k] == shown[k]);
                assert(before.to_remove.contains(rest[k].id));
                let m = choose|m: int|
                    0 <= m < before.to_remove.len() && before.to_remove[m] == rest[k].id;
                assert(scan.to_remove[m] == rest[k].id);
            } else {
                let buffer = change.multi_buffer.spec_buffer(inlay.position.buffer_id)->0;
                lemma_halt_bounds(buffer, cached, before.passed, inlay);
                assert(scan.to_remove[before.to_remove.len() as int] == inlay.id);
            }
        }
        if inlay_ids(shown).no_duplicates() {
            let ids = inlay_ids(shown);
            assert forall|a: int, b: int|
                0 <= a < rest.len() && 0 <= b < rest.len() && a != b implies inlay_ids(rest)[a]
                != inlay_ids(rest)[b] by {
                assert(ids[a] != ids[b]);
            }
            if before.to_remove.contains(inlay.id) {
                let k = choose|k: int|
                    0 <= k < rest.len() && (#[trigger] rest[k]).id == inlay.id
                        && change.multi_buffer.spec_buffer(rest[k].position.buffer_id) is Some;
                assert(ids[k] != ids[last]);
            }
            assert forall|a: int, b: int|
                0 <= a < scan.to_remove.len() && 0 <= b < scan.to_remove.len() && a
                    != b implies scan.to_remove[a] != scan.to_remove[b] by {
                let n = before.to_remove.len();
                if a < n {
                    assert(before.to_remove.contains(before.to_remove[a]));
                }
                if b < n {
                    assert(before.to_remove.contains(before.to_remove[b]));
                }
            }
        }
    }
}

/// In an excerpt with cached hints, only inlays that it shows are removed, and none whose buffer
/// is gone. Every other inlay is removed, unless a hint with its id is cached there whose kind
/// is allowed now.
pub proof fn law_inlays_are_removed(change: KindsChange, excerpt_id: ExcerptId, inlay: Inlay)
    requires
        change.hints.contains_key(excerpt_id),
    ensures
        change.removed_in(excerpt_id).contains(inlay.id) ==> exists|k: int|
            0 <= k < change.visible_hints.len() && (#[trigger] change.visible_hints[k]).id
                == inlay.id && change.visible_hints[k].position.excerpt_id == excerpt_id
                && change.visible_hints[k].position.buffer_id is Some
                && change.multi_buffer.buffers@.contains_key(
                change.visible_hints[k].position.buffer_id->0,
            ),
        change.visible_hints.contains(inlay) && inlay.position.excerpt_id == excerpt_id
            && inlay.position.buffer_id is Some && change.multi_buffer.buffers@.contains_key(
            inlay.position.buffer_id->0,
        ) && (forall|i: int|
            0 <= i < change.hints[excerpt_id].hints.len() && (
            #[trigger] change.hints[excerpt_id].hints[i]).0 == inlay.id
                ==> !change.new_kinds.contains(change.hints[excerpt_id].hints[i].1.kind))
            ==> change.removed_in(excerpt_id).contains(inlay.id),
{
    let cached = change.hints[excerpt_id].hints;
    let shown = change.shown_in(excerpt_id);
    lemma_scan_removes(change, cached, shown);
    if change.removed_in(excerpt_id).contains(inlay.id) {
        let k = choose|k: int|
            0 <= k < shown.len() && (#[trigger] shown[k]).id == inlay.id
                && change.multi_buffer.spec_buffer(shown[k].position.buffer_id) is Some;
        assert(shown.contains(shown[k]));
        lemma_filter_contains_iff(change.visible_hints, in_excerpt(excerpt_id), shown[k]);
        let l = choose|l: int|
            0 <= l < change.visible_hints.len() && change.visible_hints[l] == shown[k];
        assert(change.visible_hints[l].id == inlay.id);
    }
    if change.visible_hints.contains(inlay) && inlay.position.excerpt_id == excerpt_id {
        lemma_filter_contains_iff(change.visible_hints, in_excerpt(excerpt_id), inlay);
        let k = choose|k: int| 0 <= k < shown.len() && shown[k] == inlay;
        assert(shown[k].id == inlay.id);
    }
}

/// In an excerpt without cached hints, exactly the inlays that it shows are removed, and nothing
/// is inserted.
pub proof fn law_inlays_without_cached_hints_are_removed(
    change: KindsChange,
    excerpt_id: ExcerptId,
    id: InlayId,
)
    requires
        !change.hints.contains_key(excerpt_id),
    ensures
        change.removed_in(excerpt_id).contains(id) <==> exists|k: int|
            0 <= k < change.visible_hints.len() && (#[trigger] change.visible_hints[k]).id == id
                && change.visible_hints[k].position.excerpt_id == excerpt_id,
        change.inserted_in(excerpt_id).len() == 0,
{
    let shown = change.shown_in(excerpt_id);
    if change.removed_in(excerpt_id).contains(id) {
        let k = choose|k: int| 0 <= k < inlay_ids(shown).len() && inlay_ids(shown)[k] == id;
        assert(shown.contains(shown[k]));
        lemma_filter_contains_iff(change.visible_hints, in_excerpt(excerpt_id), shown[k]);
        let l = choose|l: int|
            0 <= l < change.visible_hints.len() && change.visible_hints[l] == shown[k];
        assert(change.visible_hints[l].id == id);
    }
    if exists|k: int|
        0 <= k < change.visible_hints.len() && (#[trigger] change.visible_hints[k]).id == id
            && change.visible_hints[k].position.excerpt_id == excerpt_id {
        let k = choose|k: int|
            0 <= k < change.visible_hints.len() && (#[trigger] change.visible_hints[k]).id == id
                && change.visible_hints[k].position.excerpt_id == excerpt_id;
        let inlay = change.visible_hints[k];
        assert(change.visible_hints.contains(inlay));
        lemma_filter_contains_iff(change.visible_hints, in_excerpt(excerpt_id), inlay);
        let l = choose|l: int| 0 <= l < shown.len() && shown[l] == inlay;
        assert(inlay_ids(shown)[l] == id);
    }
}

/// In an excerpt, only cached hints are inserted whose kind is allowed now and was not before.
/// Every such hint is, unless an inlay with its id is shown there. None is inserted twice where
/// none is cached twice.
pub proof fn law_hints_are_inserted(change: KindsChange, excerpt_id: ExcerptId, i: int)
    requires
        change.hints.contains_key(excerpt_id),
    ensures
        ({
            let cached = change.hints[excerpt_id].hints;
            let inserted = change.inserted_in(excerpt_id);
            &&& forall|hint: (InlayId, HintView)| #[trigger]
                inserted.contains(hint) ==> cached.contains(hint) && !change.old_kinds.contains(
                    hint.1.kind,
                ) && change.new_kinds.contains(hint.1.kind)
            &&& 0 <= i < cached.len() && !change.old_kinds.contains(cached[i].1.kind)
                && change.new_kinds.contains(cached[i].1.kind) && (forall|k: int|
                0 <= k < change.visible_hints.len() && (
                #[trigger] change.visible_hints[k]).position.excerpt_id == excerpt_id
                    ==> change.visible_hints[k].id != cached[i].0) ==> inserted.contains(cached[i])
            &&& cached.no_duplicates() ==> inserted.no_duplicates()
        }),
{
    let cached = change.hints[excerpt_id].hints;
    let shown = change.shown_in(excerpt_id);
    let inserted = change.inserted_in(excerpt_id);
    lemma_scan_inserts(change, cached, shown);
    let scan = change.scan(cached, shown);
    let len = cached.len() as int;
    let more = change.appearing(cached, scan.passed, len);
    assert forall|hint: (InlayId, HintView)| #[trigger] inserted.contains(hint) implies cached.contains(
        hint,
    ) && !change.old_kinds.contains(hint.1.kind) && change.new_kinds.contains(hint.1.kind) by {
        lemma_concat_contains(scan.to_insert, more, hint);
        lemma_appearing(change, cached, scan.passed, len, hint);
        if scan.to_insert.contains(hint) {
            let k = choose|k: int| 0 <= k < scan.passed && #[trigger] cached[k] == hint;
            assert(cached[k] == hint);
        }
    }
    if 0 <= i < cached.len() && !change.old_kinds.contains(cached[i].1.kind)
        && change.new_kinds.contains(cached[i].1.kind) && (forall|k: int|
        0 <= k < change.visible_hints.len() && (
        #[trigger] change.visible_hints[k]).position.excerpt_id == excerpt_id
            ==> change.visible_hints[k].id != cached[i].0) {
        assert forall|k: int| 0 <= k < shown.len() implies (#[trigger] shown[k]).id
            != cached[i].0 by {
            assert(shown.contains(shown[k]));
            lemma_filter_contains_iff(change.visible_hints, in_excerpt(excerpt_id), shown[k]);
            let l = choose|l: int|
                0 <= l < change.visible_hints.len() && change.visible_hints[l] == shown[k];
            assert(change.visible_hints[l].id == shown[k].id);
        }
        lemma_concat_contains(scan.to_insert, more, cached[i]);
        lemma_appearing(change, cached, scan.passed, len, cached[i]);
    }
    if cached.no_duplicates() {
        if cached.len() > 0 {
            lemma_appearing(change, cached, scan.passed, len, cached[0]);
        } else {
            reveal(Seq::filter);
            assert(more.len() == 0);
        }
        lemma_parts_distinct(change, cached, scan.to_insert, scan.passed, len);
    }
}

/// Whether the inlays of an excerpt whose buffers are there stand for its cached hints at
/// `places`, in their order: they have the ids and the positions of those hints, and the cached
/// hints are in the order of their positions. An inlay for whose id no hint is cached has the
/// place -1, and stands before the hints of the inlays after it.
pub open spec fn stand_for(
    change: KindsChange,
    cached: Seq<(InlayId, HintView)>,
    shown: Seq<Inlay>,
    places: Seq<int>,
) -> bool {
    &&& places.len() == shown.len()
    &&& forall|k: int|
        0 <= k < shown.len() && is_there(change, #[trigger] shown[k]) ==> {
            let buffer = change.multi_buffer.buffers@[shown[k].position.buffer_id->0];
            let rank = buffer.rank(shown[k].position.text_anchor);
            &&& -1 <= places[k] < cached.len()
            &&& places[k] >= 0 ==> cached[places[k]].0 == shown[k].id && buffer.rank(
                cached[places[k]].1.position,
            ) == rank
            &&& places[k] == -1 ==> {
                &&& forall|i: int|
                    0 <= i < cached.len() ==> (#[trigger] cached[i]).0 != shown[k].id
                &&& forall|l: int|
                    k < l < shown.len() && is_there(change, #[trigger] shown[l]) && places[l] >= 0
                        ==> buffer.rank(cached[places[l]].1.position) > rank
            }
            &&& forall|a: int, b: int|
                0 <= a <= b < cached.len() ==> buffer.rank((#[trigger] cached[a]).1.position)
                    <= buffer.rank((#[trigger] cached[b]).1.position)
        }
    &&& forall|j: int, k: int|
        0 <= j < k < shown.len() && is_there(change, #[trigger] shown[j]) && is_there(
            change,
            #[trigger] shown[k],
        ) && places[j] >= 0 && places[k] >= 0 ==> places[j] < places[k]
}

/// Whether the buffer of an inlay is there.
pub open spec fn is_there(change: KindsChange, inlay: Inlay) -> bool {
    inlay.position.buffer_id is Some && change.multi_buffer.buffers@.contains_key(
        inlay.position.buffer_id->0,
    )
}

/// Whether the inlay `k` stands for no hint of a kind that is allowed now.
spec fn is_idle(
    change: KindsChange,
    cached: Seq<(InlayId, HintView)>,
    places: Seq<int>,
    k: int,
) -> bool {
    places[k] == -1 || !change.new_kinds.contains(cached[places[k]].1.kind)
}

proof fn lemma_scan_of_known_inlays(
    change: KindsChange,
    cached: Seq<(InlayId, HintView)>,
    shown: Seq<Inlay>,
    places: Seq<int>,
    n: int,
)
    requires
        stand_for(change, cached, shown, places),
        forall|a: int, b: int|
            0 <= a < b < cached.len() ==> (#[trigger] cached[a]).0 != (#[trigger] cached[b]).0,
        0 <= n <= shown.len(),
    ensures
        ({
            let scan = change.scan(cached, shown.take(n));
            &&& 0 <= scan.passed <= cached.len()
            &&& forall|k: int|
                0 <= k < n && is_there(change, #[trigger] shown[k]) ==> places[k] < scan.passed
            &&& forall|k: int|
                n <= k < shown.len() && is_there(change, #[trigger] shown[k]) && places[k] >= 0
                    ==> scan.passed <= places[k]
            &&& forall|id: InlayId| #[trigger]
                scan.to_remove.contains(id) <==> exists|k: int|
                    0 <= k < n && is_there(change, #[trigger] shown[k]) && shown[k].id == id
                        && is_idle(change, cached, places, k)
            &&& forall|k: int|
                0 <= k < shown.len() && is_there(change, #[trigger] shown[k]) && places[k] >= 0
                    ==> !scan.to_insert.contains(cached[places[k]])
        }),
    decreases n,
{
    if n == 0 {
        assert(shown.take(0).len() == 0);
    } else {
        lemma_scan_of_known_inlays(change, cached, shown, places, n - 1);
        let before = change.scan(cached, shown.take(n - 1));
        let scan = change.scan(cached, shown.take(n));
        let inlay = shown[n - 1];
        assert(shown.take(n).drop_last() =~= shown.take(n - 1));
        assert(shown.take(n).last() == inlay);
        if is_there(change, inlay) {
            let buffer = &change.multi_buffer.buffers@[inlay.position.buffer_id->0];
            let place = places[n - 1];
            let halt = halt_from(buffer, cached, before.passed, inlay);
            assert(is_there(change, shown[n - 1]));
            lemma_halt_bounds(buffer, cached, before.passed, inlay);
            if place >= 0 {
                assert(before.passed <= place);
                assert forall|i: int| before.passed <= i < place implies !halts_at(
                    buffer,
                    #[trigger] cached[i],
                    inlay,
                ) by {
                    assert(cached[i].0 != cached[place].0);
                    assert(buffer.rank(cached[i].1.position) <= buffer.rank(
                        cached[place].1.position,
                    ));
                }
                lemma_halt(buffer, cached, before.passed, place, inlay);
                assert(scan.passed == place + 1);
            } else {
                if halt < cached.len() {
                    assert(cached[halt].0 != inlay.id);
                }
                assert(scan.passed == halt);
            }
            assert forall|k: int|
                n <= k < shown.len() && is_there(change, #[trigger] shown[k]) && places[k]
                    >= 0 implies scan.passed <= places[k] by {
                assert(before.passed <= places[k]);
                if place >= 0 {
                    assert(places[n - 1] < places[k]);
                } else {
                    assert(halts_at(buffer, cached[places[k]], inlay));
                    lemma_halt_before(buffer, cached, before.passed, places[k], inlay);
                }
            }
            let more = change.appearing(cached, before.passed, halt);
            assert(scan.to_insert == before.to_insert + more);
            assert forall|id: InlayId| #[trigger]
                scan.to_remove.contains(id) <==> exists|k: int|
                    0 <= k < n && is_there(change, #[trigger] shown[k]) && shown[k].id == id
                        && is_idle(change, cached, places, k) by {
                if scan.to_remove.contains(id) {
                    if before.to_remove.contains(id) {
                        let k = choose|k: int|
                            0 <= k < n - 1 && is_there(change, #[trigger] shown[k]) && shown[k].id
                                == id && is_idle(change, cached, places, k);
                        assert(is_there(change, shown[k]));
                    } else {
                        let m = choose|m: int|
                            0 <= m < scan.to_remove.len() && scan.to_remove[m] == id;
                        if m < before.to_remove.len() {
                            assert(before.to_remove[m] == id);
                        }
                        assert(is_there(change, shown[n - 1]) && shown[n - 1].id == id);
                    }
                }
                if exists|k: int|
                    0 <= k < n && is_there(change, #[trigger] shown[k]) && shown[k].id == id
                        && is_idle(change, cached, places, k) {
                    let k = choose|k: int|
                        0 <= k < n && is_there(change, #[trigger] shown[k]) && shown[k].id == id
                            && is_idle(change, cached, places, k);
                    if k < n - 1 {
                        assert(before.to_remove.contains(id));
                        let m = choose|m: int|
                            0 <= m < before.to_remove.len() && before.to_remove[m] == id;
                        assert(scan.to_remove[m] == id);
                    } else {
                        assert(scan.to_remove[before.to_remove.len() as int] == id);
                    }
                }
            }
            assert forall|k: int|
                0 <= k < shown.len() && is_there(change, #[trigger] shown[k]) && places[k]
                    >= 0 implies !scan.to_insert.contains(cached[places[k]]) by {
                let hint = cached[places[k]];
                lemma_concat_contains(before.to_insert, more, hint);
                lemma_appearing(change, cached, before.passed, halt, hint);
                if more.contains(hint) {
                    let i = choose|i: int| before.passed <= i < halt && #[trigger] cached[i] == hint;
                    if i != places[k] {
                        let (a, b) = if i < places[k] {
                            (i, places[k])
                        } else {
                            (places[k], i)
                        };
                        assert(cached[a].0 != cached[b].0);
                    }
                    if k < n - 1 {
                        assert(places[k] < before.passed);
                    } else if k > n - 1 {
                        assert(scan.passed <= places[k]);
                    }
                }
            }
        } else {
            assert(change.multi_buffer.spec_buffer(inlay.position.buffer_id) is None);
            assert(scan == before);
        }
    }
}

proof fn lemma_halt_before(
    buffer: &BufferSnapshot,
    cached: Seq<(InlayId, HintView)>,
    from: int,
    to: int,
    shown: Inlay,
)
    requires
        0 <= from <= to < cached.len(),
        halts_at(buffer, cached[to], shown),
    ensures
        halt_from(buffer, cached, from, shown) <= to,
    decreases to - from,
{
    if !halts_at(buffer, cached[from], shown) {
        lemma_halt_before(buffer, cached, from + 1, to, shown);
    }
}

/// Where the inlays of an excerpt stand for cached hints in their order, whatever kinds were
/// allowed before, exactly those are removed for which no hint is cached or whose hint is of a
/// kind that is not allowed now, and none of these hints is inserted again.
pub proof fn law_inlays_of_allowed_kinds_stay(
    change: KindsChange,
    excerpt_id: ExcerptId,
    places: Seq<int>,
    k: int,
)
    requires
        change.hints.contains_key(excerpt_id),
        forall|a: int, b: int|
            0 <= a < b < change.hints[excerpt_id].hints.len() ==> (
            #[trigger] change.hints[excerpt_id].hints[a]).0 != (
            #[trigger] change.hints[excerpt_id].hints[b]).0,
        stand_for(
            change,
            change.hints[excerpt_id].hints,
            change.visible_hints.filter(
                |inlay: Inlay| inlay.position.excerpt_id == excerpt_id,
            ),
            places,
        ),
        ({
            let shown = change.visible_hints.filter(
                |inlay: Inlay| inlay.position.excerpt_id == excerpt_id,
            );
            0 <= k < shown.len() && is_there(change, shown[k])
        }),
    ensures
        ({
            let cached = change.hints[excerpt_id].hints;
            let shown = change.visible_hints.filter(
                |inlay: Inlay| inlay.position.excerpt_id == excerpt_id,
            );
            &&& change.removed_in(excerpt_id).contains(shown[k].id) <==> places[k] == -1
                || !change.new_kinds.contains(cached[places[k]].1.kind)
            &&& places[k] >= 0 ==> !change.inserted_in(excerpt_id).contains(cached[places[k]])
        }),
{
    let cached = change.hints[excerpt_id].hints;
    let mine = |inlay: Inlay| inlay.position.excerpt_id == excerpt_id;
    let shown = change.visible_hints.filter(mine);
    lemma_same_filter(change.visible_hints, mine, in_excerpt(excerpt_id));
    assert(change.shown_in(excerpt_id) == shown);
    let n = shown.len() as int;
    lemma_scan_of_known_inlays(change, cached, shown, places, n);
    assert(shown.take(n) =~= shown);
    let scan = change.scan(cached, shown);
    assert(is_there(change, shown[k]));
    if scan.to_remove.contains(shown[k].id) {
        let l = choose|l: int|
            0 <= l < n && is_there(change, #[trigger] shown[l]) && shown[l].id == shown[k].id
                && is_idle(change, cached, places, l);
        if places[l] >= 0 && places[k] >= 0 && places[l] != places[k] {
            let (a, b) = if places[l] < places[k] {
                (places[l], places[k])
            } else {
                (places[k], places[l])
            };
            assert(cached[a].0 != cached[b].0);
        }
    }
    let hint = cached[places[k]];
    let more = change.appearing(cached, scan.passed, cached.len() as int);
    lemma_concat_contains(scan.to_insert, more, hint);
    lemma_appearing(change, cached, scan.passed, cached.len() as int, hint);
    if places[k] >= 0 && more.contains(hint) {
        let i = choose|i: int|
            scan.passed <= i < cached.len() && #[trigger] cached[i] == hint;
        assert(places[k] < i);
        assert(cached[places[k]].0 != cached[i].0);
    }
}

proof fn lemma_inserted_tuples(
    change: KindsChange,
    walk: Seq<ExcerptId>,
    entry: (Anchor, InlayId, HintView),
)
    ensures
        change.inserted(walk).contains(entry) <==> exists|i: int|
            0 <= i < walk.len() && inserted_as(change, #[trigger] walk[i], entry),
    decreases walk.len(),
{
    if walk.len() > 0 {
        let rest = walk.drop_last();
        lemma_inserted_tuples(change, rest, entry);
        let a = change.inserted(rest);
        let b = anchored(change.inserted_in(walk.last()), walk.last(), &change.multi_buffer);
        lemma_concat_contains(a, b, entry);
        if change.inserted(walk).contains(entry) {
            if a.contains(entry) {
                let i = choose|i: int|
                    0 <= i < rest.len() && inserted_as(change, #[trigger] rest[i], entry);
                assert(walk[i] == rest[i]);
            } else {
                assert(inserted_as(change, walk[walk.len() - 1], entry));
            }
        }
        if exists|i: int| 0 <= i < walk.len() && inserted_as(change, #[trigger] walk[i], entry) {
            let i = choose|i: int|
                0 <= i < walk.len() && inserted_as(change, #[trigger] walk[i], entry);
            if i < rest.len() {
                assert(rest[i] == walk[i]);
            }
        }
    }
}

spec fn inserted_as(
    change: KindsChange,
    excerpt_id: ExcerptId,
    entry: (Anchor, InlayId, HintView),
) -> bool {
    anchored(change.inserted_in(excerpt_id), excerpt_id, &change.multi_buffer).contains(entry)
}

/// The position of a hint in an excerpt of the multi-buffer.
pub open spec fn position_in(
    multi_buffer: MultiBufferSnapshot,
    excerpt_id: ExcerptId,
    hint: HintView,
) -> Anchor {
    Anchor {
        buffer_id: if multi_buffer.excerpts@.contains_key(excerpt_id) {
            Some(multi_buffer.excerpts@[excerpt_id])
        } else {
            None
        },
        excerpt_id,
        text_anchor: hint.position,
    }
}

/// What stands behind the answer to settings that choose other kinds.
proof fn lemma_walked(change: SettingsChange) -> (walk: Seq<ExcerptId>)
    requires
        change.happens(),
        change.shows_other_kinds(),
    ensures
        ({
            let kinds = change.settings.spec_enabled_inlay_hint_kinds();
            let other_kinds = change.before.change_of_kinds(
                &change.multi_buffer,
                change.visible_hints,
                kinds,
            );
            &&& other_kinds.is_walk(walk)
            &&& change.flow == SettingsFlow::Break(unless_empty(other_kinds.splice(walk)))
        }),
{
    lemma_chosen(change);
    let kinds = change.settings.spec_enabled_inlay_hint_kinds();
    let other_kinds = change.before.change_of_kinds(
        &change.multi_buffer,
        change.visible_hints,
        kinds,
    );
    choose|walk: Seq<ExcerptId>| #[trigger]
        other_kinds.is_walk(walk) && change.flow == SettingsFlow::Break(
            unless_empty(other_kinds.splice(walk)),
        )
}

/// Settings that choose other kinds remove every shown inlay whose excerpt has no cached hints,
/// and every one whose buffer is there and for which no hint with its id is cached in its
/// excerpt whose kind the settings choose.
pub proof fn law_settings_remove_inlays(change: SettingsChange, k: int)
    requires
        change.happens(),
        change.shows_other_kinds(),
        0 <= k < change.visible_hints.len(),
        ({
            let inlay = change.visible_hints[k];
            let id = inlay.position.excerpt_id;
            ||| !change.before.hints.contains_key(id)
            ||| {
                &&& inlay.position.buffer_id is Some
                &&& change.multi_buffer.buffers@.contains_key(inlay.position.buffer_id->0)
                &&& forall|i: int|
                    0 <= i < change.before.hints[id].hints.len() && (
                    #[trigger] change.before.hints[id].hints[i]).0 == inlay.id ==> !chooses(
                        change.settings,
                        change.before.hints[id].hints[i].1.kind,
                    )
            }
        }),
    ensures
        change.flow matches SettingsFlow::Break(Some(splice)) && splice.to_remove.contains(
            change.visible_hints[k].id,
        ),
{
    lemma_chosen(change);
    let walk = lemma_walked(change);
    let kinds = change.settings.spec_enabled_inlay_hint_kinds();
    let other_kinds = change.before.change_of_kinds(
        &change.multi_buffer,
        change.visible_hints,
        kinds,
    );
    let inlay = change.visible_hints[k];
    let id = inlay.position.excerpt_id;
    assert(change.visible_hints.contains(inlay));
    if change.before.hints.contains_key(id) {
        assert forall|i: int|
            0 <= i < other_kinds.hints[id].hints.len() && (
            #[trigger] other_kinds.hints[id].hints[i]).0
                == inlay.id implies !other_kinds.new_kinds.contains(
            other_kinds.hints[id].hints[i].1.kind,
        ) by {
            assert(change.before.hints[id].hints[i].0 == inlay.id);
            assert(!chooses(change.settings, change.before.hints[id].hints[i].1.kind));
        }
        law_inlays_are_removed(other_kinds, id, inlay);
    } else {
        law_inlays_without_cached_hints_are_removed(other_kinds, id, inlay.id);
    }
    assert(other_kinds.removed_in(id).contains(inlay.id));
    assert(other_kinds.is_shown(id));
    assert(walk.contains(id));
    let w = choose|w: int| 0 <= w < walk.len() && walk[w] == id;
    lemma_removed_contains(other_kinds, walk, inlay.id);
    assert(other_kinds.removed_in(walk[w]).contains(inlay.id));
    assert(other_kinds.splice(walk).to_remove.len() > 0);
}

/// Settings that choose other kinds remove only shown inlays, and none that is in an excerpt
/// with cached hints while its buffer is gone, unless another inlay with its id is shown.
pub proof fn law_settings_remove_only_inlays(
    change: SettingsChange,
    splice: SpliceView,
    id: InlayId,
)
    requires
        change.happens(),
        change.shows_other_kinds(),
        change.flow == SettingsFlow::Break(Some(splice)),
        splice.to_remove.contains(id),
    ensures
        exists|k: int|
            0 <= k < change.visible_hints.len() && (#[trigger] change.visible_hints[k]).id == id
                && (!change.before.hints.contains_key(
                change.visible_hints[k].position.excerpt_id,
            ) || (change.visible_hints[k].position.buffer_id is Some
                && change.multi_buffer.buffers@.contains_key(
                change.visible_hints[k].position.buffer_id->0,
            ))),
{
    let walk = lemma_walked(change);
    let kinds = change.settings.spec_enabled_inlay_hint_kinds();
    let other_kinds = change.before.change_of_kinds(
        &change.multi_buffer,
        change.visible_hints,
        kinds,
    );
    lemma_removed_contains(other_kinds, walk, id);
    let w = choose|w: int|
        0 <= w < walk.len() && other_kinds.removed_in(#[trigger] walk[w]).contains(id);
    let e = walk[w];
    if change.before.hints.contains_key(e) {
        let any = Inlay { id, position: arbitrary() };
        law_inlays_are_removed(other_kinds, e, any);
    } else {
        law_inlays_without_cached_hints_are_removed(other_kinds, e, id);
    }
}

/// Settings that choose other kinds leave an inlay that stands for a cached hint whose kind they
/// choose, where the inlays of its excerpt stand for cached hints in their order and no other
/// inlay has its id.
pub proof fn law_settings_leave_inlays(
    change: SettingsChange,
    splice: SpliceView,
    excerpt_id: ExcerptId,
    places: Seq<int>,
    k: int,
)
    requires
        change.happens(),
        change.shows_other_kinds(),
        change.flow == SettingsFlow::Break(Some(splice)),
        change.before.hints.contains_key(excerpt_id),
        forall|a: int, b: int|
            0 <= a < b < change.before.hints[excerpt_id].hints.len() ==> (
            #[trigger] change.before.hints[excerpt_id].hints[a]).0 != (
            #[trigger] change.before.hints[excerpt_id].hints[b]).0,
        forall|a: int, b: int|
            0 <= a < b < change.visible_hints.len() ==> (#[trigger] change.visible_hints[a]).id != (
            #[trigger] change.visible_hints[b]).id,
        ({
            let other_kinds = change.before.change_of_kinds(
                &change.multi_buffer,
                change.visible_hints,
                change.settings.spec_enabled_inlay_hint_kinds(),
            );
            let shown = change.visible_hints.filter(
                |inlay: Inlay| inlay.position.excerpt_id == excerpt_id,
            );
            let cached = change.before.hints[excerpt_id].hints;
            &&& stand_for(other_kinds, cached, shown, places)
            &&& 0 <= k < shown.len()
            &&& is_there(other_kinds, shown[k])
            &&& places[k] >= 0
            &&& chooses(change.settings, cached[places[k]].1.kind)
        }),
    ensures
        !splice.to_remove.contains(
            change.visible_hints.filter(
                |inlay: Inlay| inlay.position.excerpt_id == excerpt_id,
            )[k].id,
        ),
{
    lemma_chosen(change);
    let walk = lemma_walked(change);
    let kinds = change.settings.spec_enabled_inlay_hint_kinds();
    let other_kinds = change.before.change_of_kinds(
        &change.multi_buffer,
        change.visible_hints,
        kinds,
    );
    let mine = |inlay: Inlay| inlay.position.excerpt_id == excerpt_id;
    let shown = change.visible_hints.filter(mine);
    let cached = change.before.hints[excerpt_id].hints;
    let id = shown[k].id;
    assert(kinds.contains(cached[places[k]].1.kind) == chooses(
        change.settings,
        cached[places[k]].1.kind,
    ));
    law_inlays_of_allowed_kinds_stay(other_kinds, excerpt_id, places, k);
    assert(!other_kinds.removed_in(excerpt_id).contains(id));
    lemma_removed_contains(other_kinds, walk, id);
    if splice.to_remove.contains(id) {
        let w = choose|w: int|
            0 <= w < walk.len() && other_kinds.removed_in(#[trigger] walk[w]).contains(id);
        let ids = inlay_ids(change.visible_hints);
        assert forall|a: int, b: int|
            0 <= a < ids.len() && 0 <= b < ids.len() && a != b implies ids[a] != ids[b] by {
            let (x, y) = if a < b {
                (a, b)
            } else {
                (b, a)
            };
            assert(change.visible_hints[x].id != change.visible_hints[y].id);
        }
        lemma_shown_ids_distinct(other_kinds, walk[w]);
        let a = choose|a: int|
            0 <= a < change.visible_hints.len() && (#[trigger] change.visible_hints[a]).id == id
                && change.visible_hints[a].position.excerpt_id == walk[w];
        assert(shown.contains(shown[k]));
        lemma_filter_contains_iff(change.visible_hints, mine, shown[k]);
        let b = choose|b: int|
            0 <= b < change.visible_hints.len() && change.visible_hints[b] == shown[k];
        assert(ids[a] == ids[b]);
    }
}

/// Settings insert every cached hint whose kind they choose and which was not allowed before,
/// with its id and at its position, unless an inlay with its id is shown in its excerpt.
pub proof fn law_settings_insert_hints(change: SettingsChange, excerpt_id: ExcerptId, i: int)
    requires
        change.happens(),
        change.before.enabled,
        change.settings.enabled,
        change.before.hints.contains_key(excerpt_id),
        0 <= i < change.before.hints[excerpt_id].hints.len(),
        ({
            let hint = change.before.hints[excerpt_id].hints[i];
            &&& !change.before.allowed_hint_kinds.contains(hint.1.kind)
            &&& chooses(change.settings, hint.1.kind)
            &&& forall|k: int|
                0 <= k < change.visible_hints.len() && (
                #[trigger] change.visible_hints[k]).position.excerpt_id == excerpt_id
                    ==> change.visible_hints[k].id != hint.0
        }),
    ensures
        change.flow matches SettingsFlow::Break(Some(splice)) && splice.to_insert.contains(
            (
                position_in(
                    change.multi_buffer,
                    excerpt_id,
                    change.before.hints[excerpt_id].hints[i].1,
                ),
                change.before.hints[excerpt_id].hints[i].0,
                change.before.hints[excerpt_id].hints[i].1,
            ),
        ),
{
    let hint = change.before.hints[excerpt_id].hints[i];
    assert(change.before.allowed_hint_kinds.contains(hint.1.kind) != chooses(
        change.settings,
        hint.1.kind,
    ));
    lemma_chosen(change);
    let walk = lemma_walked(change);
    let kinds = change.settings.spec_enabled_inlay_hint_kinds();
    let other_kinds = change.before.change_of_kinds(
        &change.multi_buffer,
        change.visible_hints,
        kinds,
    );
    law_hints_are_inserted(other_kinds, excerpt_id, i);
    let inserted = other_kinds.inserted_in(excerpt_id);
    let k = choose|k: int| 0 <= k < inserted.len() && inserted[k] == hint;
    let entry = (position_in(change.multi_buffer, excerpt_id, hint.1), hint.0, hint.1);
    assert(anchored(inserted, excerpt_id, &change.multi_buffer)[k] == entry);
    assert(inserted_as(other_kinds, excerpt_id, entry));
    assert(walk.contains(excerpt_id));
    let w = choose|w: int| 0 <= w < walk.len() && walk[w] == excerpt_id;
    assert(inserted_as(other_kinds, walk[w], entry));
    lemma_inserted_tuples(other_kinds, walk, entry);
    assert(other_kinds.splice(walk).to_insert.len() > 0);
}

/// Settings insert only cached hints whose kind they choose and which was not allowed before,
/// each with its id and at its position.
pub proof fn law_settings_insert_only_hints(
    change: SettingsChange,
    splice: SpliceView,
    n: int,
)
    requires
        change.happens(),
        change.before.enabled,
        change.settings.enabled,
        change.flow == SettingsFlow::Break(Some(splice)),
        0 <= n < splice.to_insert.len(),
    ensures
        ({
            let (position, id, hint) = splice.to_insert[n];
            let excerpt_id = position.excerpt_id;
            &&& change.before.hints.contains_key(excerpt_id)
            &&& change.before.hints[excerpt_id].hints.contains((id, hint))
            &&& !change.before.allowed_hint_kinds.contains(hint.kind)
            &&& chooses(change.settings, hint.kind)
            &&& position == position_in(change.multi_buffer, excerpt_id, hint)
        }),
{
    lemma_chosen(change);
    let walk = lemma_walked(change);
    let kinds = change.settings.spec_enabled_inlay_hint_kinds();
    let other_kinds = change.before.change_of_kinds(
        &change.multi_buffer,
        change.visible_hints,
        kinds,
    );
    let entry = splice.to_insert[n];
    assert(splice.to_insert.contains(entry));
    lemma_inserted_tuples(other_kinds, walk, entry);
    let w = choose|w: int|
        0 <= w < walk.len() && inserted_as(other_kinds, #[trigger] walk[w], entry);
    let e = walk[w];
    let inserted = other_kinds.inserted_in(e);
    let k = choose|k: int|
        0 <= k < anchored(inserted, e, &change.multi_buffer).len() && anchored(
            inserted,
            e,
            &change.multi_buffer,
        )[k] == entry;
    assert(inserted.contains(inserted[k]));
    if change.before.hints.contains_key(e) {
        law_hints_are_inserted(other_kinds, e, 0);
    } else {
        law_inlays_without_cached_hints_are_removed(other_kinds, e, entry.1);
    }
}

proof fn lemma_shown_ids_distinct(change: KindsChange, excerpt_id: ExcerptId)
    requires
        inlay_ids(change.visible_hints).no_duplicates(),
    ensures
        inlay_ids(change.shown_in(excerpt_id)).no_duplicates(),
        change.removed_in(excerpt_id).no_duplicates(),
        forall|id: InlayId| #[trigger]
            change.removed_in(excerpt_id).contains(id) ==> exists|k: int|
                0 <= k < change.visible_hints.len() && (#[trigger] change.visible_hints[k]).id
                    == id && change.visible_hints[k].position.excerpt_id == excerpt_id,
{
    let visible = change.visible_hints;
    let shown = change.shown_in(excerpt_id);
    let ids = inlay_ids(visible);
    assert forall|a: int, b: int|
        0 <= a < visible.len() && 0 <= b < visible.len() && a != b implies visible[a]
        != visible[b] by {
        assert(ids[a] != ids[b]);
    }
    lemma_filter_no_duplicates(visible, in_excerpt(excerpt_id));
    assert forall|a: int, b: int|
        0 <= a < shown.len() && 0 <= b < shown.len() && a != b implies inlay_ids(shown)[a]
        != inlay_ids(shown)[b] by {
        assert(shown.contains(shown[a]) && shown.contains(shown[b]));
        lemma_filter_contains_iff(visible, in_excerpt(excerpt_id), shown[a]);
        lemma_filter_contains_iff(visible, in_excerpt(excerpt_id), shown[b]);
        let k = choose|k: int| 0 <= k < visible.len() && visible[k] == shown[a];
        let l = choose|l: int| 0 <= l < visible.len() && visible[l] == shown[b];
        assert(ids[k] != ids[l]);
    }
    if change.hints.contains_key(excerpt_id) {
        lemma_scan_removes(change, change.hints[excerpt_id].hints, shown);
    }
    assert forall|id: InlayId| #[trigger]
        change.removed_in(excerpt_id).contains(id) implies exists|k: int|
        0 <= k < visible.len() && (#[trigger] visible[k]).id == id
            && visible[k].position.excerpt_id == excerpt_id by {
        if change.hints.contains_key(excerpt_id) {
            let any = Inlay { id, position: arbitrary() };
            law_inlays_are_removed(change, excerpt_id, any);
        } else {
            law_inlays_without_cached_hints_are_removed(change, excerpt_id, id);
        }
    }
}

proof fn lemma_removed_once(change: KindsChange, walk: Seq<ExcerptId>)
    requires
        walk.no_duplicates(),
        inlay_ids(change.visible_hints).no_duplicates(),
    ensures
        change.removed(walk).no_duplicates(),
    decreases walk.len(),
{
    if walk.len() > 0 {
        let rest = walk.drop_last();
        let e = walk.last();
        assert forall|a: int, b: int|
            0 <= a < rest.len() && 0 <= b < rest.len() && a != b implies rest[a] != rest[b] by {
            assert(walk[a] != walk[b]);
        }
        lemma_removed_once(change, rest);
        lemma_shown_ids_distinct(change, e);
        let first = change.removed(rest);
        let more = change.removed_in(e);
        let ids = inlay_ids(change.visible_hints);
        assert forall|id: InlayId| #[trigger] first.contains(id) implies !more.contains(id) by {
            lemma_removed_contains(change, rest, id);
            let i = choose|i: int|
                0 <= i < rest.len() && change.removed_in(#[trigger] rest[i]).contains(id);
            lemma_shown_ids_distinct(change, rest[i]);
            assert(walk[i] != walk[walk.len() - 1]);
            if more.contains(id) {
                let k = choose|k: int|
                    0 <= k < change.visible_hints.len() && (
                    #[trigger] change.visible_hints[k]).id == id
                        && change.visible_hints[k].position.excerpt_id == rest[i];
                let l = choose|l: int|
                    0 <= l < change.visible_hints.len() && (
                    #[trigger] change.visible_hints[l]).id == id
                        && change.visible_hints[l].position.excerpt_id == e;
                assert(ids[k] == ids[l]);
            }
        }
        lemma_concat_no_duplicates(first, more);
    }
}

proof fn lemma_inserted_once(change: KindsChange, walk: Seq<ExcerptId>)
    requires
        walk.no_duplicates(),
        forall|id: ExcerptId| #[trigger]
            change.hints.contains_key(id) ==> change.hints[id].hints.no_duplicates(),
    ensures
        change.inserted(walk).no_duplicates(),
    decreases walk.len(),
{
    if walk.len() > 0 {
        let rest = walk.drop_last();
        let e = walk.last();
        assert forall|a: int, b: int|
            0 <= a < rest.len() && 0 <= b < rest.len() && a != b implies rest[a] != rest[b] by {
            assert(walk[a] != walk[b]);
        }
        lemma_inserted_once(change, rest);
        let hints = change.inserted_in(e);
        if change.hints.contains_key(e) {
            law_hints_are_inserted(change, e, 0);
        }
        let first = change.inserted(rest);
        let more = anchored(hints, e, &change.multi_buffer);
        assert forall|a: int, b: int|
            0 <= a < more.len() && 0 <= b < more.len() && a != b implies more[a] != more[b] by {
            assert(hints[a] != hints[b]);
        }
        assert forall|entry: (Anchor, InlayId, HintView)| #[trigger]
            first.contains(entry) implies !more.contains(entry) by {
            lemma_inserted_tuples(change, rest, entry);
            let i = choose|i: int|
                0 <= i < rest.len() && inserted_as(change, #[trigger] rest[i], entry);
            assert(entry.0.excerpt_id == rest[i]);
            assert(walk[i] != walk[walk.len() - 1]);
            if more.contains(entry) {
                assert(entry.0.excerpt_id == e);
            }
        }
        lemma_concat_no_duplicates(first, more);
    }
}

/// Settings that choose other kinds remove no inlay twice where no two have one id, and insert no
/// hint twice where none is cached twice.
pub proof fn law_settings_splice_once(change: SettingsChange, splice: SpliceView)
    requires
        change.happens(),
        change.shows_other_kinds(),
        change.flow == SettingsFlow::Break(Some(splice)),
    ensures
        (forall|a: int, b: int|
            0 <= a < b < change.visible_hints.len() ==> (#[trigger] change.visible_hints[a]).id != (
            #[trigger] change.visible_hints[b]).id) ==> splice.to_remove.no_duplicates(),
        (forall|id: ExcerptId| #[trigger]
            change.before.hints.contains_key(id)
                ==> change.before.hints[id].hints.no_duplicates())
            ==> splice.to_insert.no_duplicates(),
{
    let walk = lemma_walked(change);
    let kinds = change.settings.spec_enabled_inlay_hint_kinds();
    let other_kinds = change.before.change_of_kinds(
        &change.multi_buffer,
        change.visible_hints,
        kinds,
    );
    if forall|a: int, b: int|
        0 <= a < b < change.visible_hints.len() ==> (#[trigger] change.visible_hints[a]).id != (
        #[trigger] change.visible_hints[b]).id {
        let ids = inlay_ids(change.visible_hints);
        assert forall|a: int, b: int|
            0 <= a < ids.len() && 0 <= b < ids.len() && a != b implies ids[a] != ids[b] by {
            let (x, y) = if a < b {
                (a, b)
            } else {
                (b, a)
            };
            assert(change.visible_hints[x].id != change.visible_hints[y].id);
        }
        lemma_removed_once(other_kinds, walk);
    }
    if forall|id: ExcerptId| #[trigger]
        change.before.hints.contains_key(id) ==> change.before.hints[id].hints.no_duplicates() {
        lemma_inserted_once(other_kinds, walk);
    }
}

} // verus!
