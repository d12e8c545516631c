//! What the mathematical values tell of the values themselves.

use std::ops::ControlFlow;

use vstd::prelude::*;

use crate::anchor::ExcerptId;
use crate::cache::{flow_view, InlayHintCache, SettingsFlow};
use crate::hint::{HintKinds, InlayHint, InlayHintKind, InlayHintLabel, InlayHintSettings};
use crate::splice::{splice_view, InlaySplice};
use crate::updates::{CachedExcerptHints, ExcerptHintsUpdate};

verus! {

/// Labels are the same if both are whole with the same text, or both in parts with the same
/// texts in the same order.
pub proof fn law_labels_are_told_apart(a: InlayHintLabel, b: InlayHintLabel)
    ensures
        a@ == b@ <==> match (a, b) {
            (InlayHintLabel::String(s), InlayHintLabel::String(t)) => s@ == t@,
            (InlayHintLabel::LabelParts(s), InlayHintLabel::LabelParts(t)) => s@.len()
                == t@.len() && forall|i: int| 0 <= i < s@.len() ==> #[trigger] s@[i]@ == t@[i]@,
            _ => false,
        },
{
    match (a, b) {
        (InlayHintLabel::LabelParts(s), InlayHintLabel::LabelParts(t)) => {
            let sv = Seq::new(s@.len(), |i: int| s@[i]@);
            let tv = Seq::new(t@.len(), |i: int| t@[i]@);
            assert(a@->Parts_0 == sv && b@->Parts_0 == tv);
            if a@ == b@ {
                assert forall|i: int| 0 <= i < s@.len() implies #[trigger] s@[i]@ == t@[i]@ by {
                    assert(sv[i] == tv[i]);
                }
            }
            if s@.len() == t@.len() && (forall|i: int|
                0 <= i < s@.len() ==> #[trigger] s@[i]@ == t@[i]@) {
                assert(sv =~= tv);
            }
        },
        _ => {},
    }
}

/// Hints are the same if they agree in position, label, kind, both paddings and tooltip.
pub proof fn law_hints_are_told_apart(a: InlayHint, b: InlayHint)
    ensures
        a@ == b@ <==> {
            &&& a.position == b.position
            &&& a.label@ == b.label@
            &&& a.kind == b.kind
            &&& a.padding_left == b.padding_left
            &&& a.padding_right == b.padding_right
            &&& match (a.tooltip, b.tooltip) {
                (Some(s), Some(t)) => s@ == t@,
                (None, None) => true,
                _ => false,
            }
        },
        a@.position == a.position,
        a@.kind == a.kind,
{
}

/// The settings choose the three kinds each by itself.
pub proof fn law_settings_choose_kinds(settings: InlayHintSettings)
    ensures
        ({
            let kinds = settings.spec_enabled_inlay_hint_kinds();
            &&& kinds.contains(Some(InlayHintKind::Type)) <==> settings.show_type_hints
            &&& kinds.contains(Some(InlayHintKind::Parameter)) <==> settings.show_parameter_hints
            &&& kinds.contains(None) <==> settings.show_other_hints
        }),
{
}

/// A set of kinds has the three kinds each by itself.
pub proof fn law_kinds_are_told_apart(kinds: HintKinds)
    ensures
        kinds@.contains(Some(InlayHintKind::Type)) <==> kinds.types,
        kinds@.contains(Some(InlayHintKind::Parameter)) <==> kinds.parameters,
        kinds@.contains(None) <==> kinds.others,
{
}

/// The value of cached hints has their versions, and each hint with its id in its place.
pub proof fn law_cached_hints_are_seen(cached: CachedExcerptHints)
    ensures
        cached@.version == cached.version,
        cached@.buffer_version == cached.buffer_version.values@,
        cached@.hints.len() == cached.hints@.len(),
        forall|i: int|
            0 <= i < cached.hints@.len() ==> #[trigger] cached@.hints[i] == (
                cached.hints@[i].0,
                cached.hints@[i].1@,
            ),
{
}

/// The value of an update has all that it removes and adds.
pub proof fn law_update_is_seen(update: ExcerptHintsUpdate)
    ensures
        update@.excerpt_id == update.excerpt_id,
        update@.cache_version == update.cache_version,
        update@.remove_from_visible == update.remove_from_visible@,
        update@.remove_from_cache == update.remove_from_cache@,
        update@.add_to_cache.len() == update.add_to_cache@.len(),
        forall|i: int|
            0 <= i < update.add_to_cache@.len() ==> #[trigger] update@.add_to_cache[i]
                == update.add_to_cache@[i]@,
        update@.changes_anything() <==> update.remove_from_visible@.len() > 0
            || update.remove_from_cache@.len() > 0 || update.add_to_cache@.len() > 0,
{
}

/// The value of a splice has all that it removes and inserts.
pub proof fn law_splice_is_seen(splice: InlaySplice)
    ensures
        splice@.to_remove == splice.to_remove@,
        splice@.to_insert.len() == splice.to_insert@.len(),
        forall|i: int|
            0 <= i < splice.to_insert@.len() ==> #[trigger] splice@.to_insert[i] == (
                splice.to_insert@[i].0,
                splice.to_insert@[i].1,
                splice.to_insert@[i].2@,
            ),
        splice@.is_empty() <==> splice.to_remove@.len() == 0 && splice.to_insert@.len() == 0,
        splice_view(Some(splice)) == Some(splice@),
        splice_view(None) is None,
        flow_view(ControlFlow::Break(Some(splice))) == SettingsFlow::Break(Some(splice@)),
        flow_view(ControlFlow::Break(None)) == SettingsFlow::Break(None),
        flow_view(ControlFlow::Continue(())) == SettingsFlow::Continue,
{
}

/// The value of a cache has its version, its switch, its kinds, its tasks, and the hints of
/// each excerpt.
pub proof fn law_cache_is_seen(cache: InlayHintCache, excerpt_id: ExcerptId)
    ensures
        cache@.version == cache.version,
        cache@.enabled == cache.enabled,
        cache@.allowed_hint_kinds == cache.allowed_hint_kinds@,
        cache@.update_tasks == cache.update_tasks@,
        cache@.hints.contains_key(excerpt_id) <==> cache.hints@.contains_key(excerpt_id),
        cache.hints@.contains_key(excerpt_id) ==> cache@.hints[excerpt_id]
            == cache.hints@[excerpt_id]@ && cache@.hints_of(excerpt_id)
            == cache.hints@[excerpt_id]@.hints,
        !cache.hints@.contains_key(excerpt_id) ==> cache@.hints_of(excerpt_id).len() == 0,
{
}

} // verus!
