use std::collections::{BTreeSet, HashMap};
use std::ops::{ControlFlow, Range};

use inlay_hint_cache::anchor::{
    Bias, BufferSnapshot, ExcerptId, MultiBufferSnapshot, RankedAnchor, TextAnchor,
};
use inlay_hint_cache::cache::InlayHintCache;
use inlay_hint_cache::clock::Global;
use inlay_hint_cache::hint::{
    Inlay, InlayHint, InlayHintKind, InlayHintLabel, InlayHintSettings, InlayId,
};
use inlay_hint_cache::query::{ExcerptDimensions, ExcerptQuery, InvalidationStrategy};
use inlay_hint_cache::splice::InlaySplice;
use inlay_hint_cache::updates::calculate_hint_updates;

const TYPE: Option<InlayHintKind> = Some(InlayHintKind::Type);
const PARAMETER: Option<InlayHintKind> = Some(InlayHintKind::Parameter);

fn settings(enabled: bool, types: bool, parameters: bool) -> InlayHintSettings {
    InlayHintSettings {
        enabled,
        show_type_hints: types,
        show_parameter_hints: parameters,
        show_other_hints: true,
    }
}

fn anchor(offset: usize) -> TextAnchor {
    TextAnchor { insertion: 1, offset, bias: Bias::Left }
}

fn snapshot() -> BufferSnapshot {
    let mut ranks = Vec::new();
    for offset in 0..30 {
        ranks.push(RankedAnchor { anchor: anchor(offset), rank: offset as u64 });
    }
    BufferSnapshot { version: Global { values: vec![1] }, ranks }
}

fn multi_buffer() -> MultiBufferSnapshot {
    MultiBufferSnapshot {
        buffers: HashMap::from([(9, snapshot())]),
        excerpts: HashMap::from([(4, 9), (5, 9)]),
    }
}

fn hint(offset: usize, kind: Option<InlayHintKind>) -> InlayHint {
    InlayHint {
        position: anchor(offset),
        label: InlayHintLabel::String(offset.to_string()),
        kind,
        padding_left: false,
        padding_right: false,
        tooltip: None,
    }
}

/// A cache and the inlays that an editor shows, in the order of their positions.
struct Shown {
    cache: InlayHintCache,
    next_inlay_id: usize,
    inlays: Vec<Inlay>,
}

impl Shown {
    fn new() -> Self {
        Shown {
            cache: InlayHintCache::new(settings(true, true, false)),
            next_inlay_id: 0,
            inlays: Vec::new(),
        }
    }

    fn splice(&mut self, splice: InlaySplice) {
        self.inlays.retain(|inlay| !splice.to_remove.contains(&inlay.id));
        for (position, id, _) in splice.to_insert {
            self.inlays.push(Inlay { id, position });
        }
        self.inlays.sort_by_key(|inlay| {
            (inlay.position.excerpt_id, inlay.position.text_anchor.offset)
        });
    }

    /// Fetches hints for a range and takes them over. Tells whether they changed anything.
    fn fetch(
        &mut self,
        excerpt_id: ExcerptId,
        invalidate: InvalidationStrategy,
        range: Range<usize>,
        hints: Vec<InlayHint>,
    ) -> bool {
        let query = ExcerptQuery {
            buffer_id: 9,
            excerpt_id,
            dimensions: ExcerptDimensions {
                excerpt_range_start: anchor(0),
                excerpt_range_end: anchor(29),
                excerpt_visible_range_start: anchor(0),
                excerpt_visible_range_end: anchor(29),
            },
            cache_version: self.cache.version,
            invalidate,
        };
        let update = calculate_hint_updates(
            query,
            anchor(range.start)..anchor(range.end),
            hints,
            &snapshot(),
            self.cache.hints.get(&excerpt_id),
            &self.inlays,
        );
        let Some(update) = update else { return false };
        let splice = self.cache.apply_hint_update(
            update,
            &snapshot(),
            &multi_buffer(),
            &mut self.next_inlay_id,
        );
        if let Some(splice) = splice {
            self.splice(splice);
        }
        true
    }

    fn change_settings(&mut self, settings: InlayHintSettings) {
        let inlays = self.inlays.iter().map(|inlay| Inlay { ..*inlay }).collect();
        let flow = self.cache.update_settings(&multi_buffer(), settings, inlays);
        if let ControlFlow::Break(Some(splice)) = flow {
            self.splice(splice);
        }
    }

    fn offsets(&self, excerpt_id: ExcerptId) -> Vec<usize> {
        self.cache.hints[&excerpt_id].hints.iter().map(|(_, hint)| hint.position.offset).collect()
    }

    fn shown_offsets(&self) -> Vec<usize> {
        self.inlays.iter().map(|inlay| inlay.position.text_anchor.offset).collect()
    }

    fn ids(&self, excerpt_id: ExcerptId) -> Vec<InlayId> {
        self.cache.hints[&excerpt_id].hints.iter().map(|(id, _)| *id).collect()
    }
}

#[test]
fn range_holds_the_fetched_hints_after_an_invalidating_fetch() {
    let mut shown = Shown::new();
    let never = InvalidationStrategy::Never;
    shown.fetch(4, never, 0..29, vec![hint(3, TYPE), hint(6, TYPE), hint(20, TYPE)]);
    let forced = InvalidationStrategy::Forced;
    shown.fetch(4, forced, 0..10, vec![hint(6, TYPE), hint(8, PARAMETER)]);
    assert_eq!(shown.offsets(4), vec![6, 8, 20]);
    assert_eq!(shown.shown_offsets(), vec![6, 20]);
}

#[test]
fn range_keeps_its_hints_after_a_plain_fetch() {
    let mut shown = Shown::new();
    let never = InvalidationStrategy::Never;
    shown.fetch(4, never, 0..29, vec![hint(3, TYPE), hint(20, TYPE)]);
    shown.fetch(4, never, 0..10, vec![hint(8, TYPE)]);
    assert_eq!(shown.offsets(4), vec![3, 8, 20]);
    assert_eq!(shown.shown_offsets(), vec![3, 8, 20]);
}

#[test]
fn hints_outside_the_range_keep_their_ids() {
    let mut shown = Shown::new();
    let forced = InvalidationStrategy::Forced;
    shown.fetch(4, forced, 0..29, vec![hint(3, TYPE), hint(20, TYPE), hint(21, PARAMETER)]);
    shown.fetch(5, forced, 0..29, vec![hint(4, TYPE)]);
    assert_eq!(shown.ids(4), vec![InlayId::Hint(0), InlayId::Hint(1), InlayId::Hint(2)]);
    shown.fetch(4, forced, 0..10, vec![hint(5, TYPE)]);
    assert_eq!(shown.ids(4), vec![InlayId::Hint(4), InlayId::Hint(1), InlayId::Hint(2)]);
    assert_eq!(shown.ids(5), vec![InlayId::Hint(3)]);
}

#[test]
fn hints_that_are_fetched_again_are_cached_once() {
    let mut shown = Shown::new();
    for invalidate in
        [InvalidationStrategy::Never, InvalidationStrategy::OnConflict, InvalidationStrategy::Forced]
    {
        shown.fetch(4, invalidate, 0..29, vec![hint(3, TYPE), hint(3, TYPE), hint(9, TYPE)]);
        assert_eq!(shown.offsets(4), vec![3, 9]);
    }
    assert_eq!(shown.cache.version, 1);
    assert_eq!(shown.next_inlay_id, 2);
}

#[test]
fn fetching_the_cached_hints_again_changes_nothing() {
    let mut shown = Shown::new();
    let hints = || vec![hint(3, TYPE), hint(5, PARAMETER), hint(9, TYPE)];
    assert!(shown.fetch(4, InvalidationStrategy::Forced, 0..29, hints()));
    assert!(!shown.fetch(4, InvalidationStrategy::Forced, 0..29, hints()));
    assert!(!shown.fetch(4, InvalidationStrategy::Never, 0..29, hints()));
}

#[test]
fn editor_shows_the_allowed_hints_after_every_change() {
    let mut shown = Shown::new();
    let forced = InvalidationStrategy::Forced;
    shown.fetch(4, forced, 0..29, vec![hint(3, TYPE), hint(5, PARAMETER), hint(9, None)]);
    shown.fetch(5, forced, 0..29, vec![hint(2, PARAMETER), hint(4, TYPE)]);
    assert_eq!(shown.shown_offsets(), vec![3, 9, 4]);
    shown.change_settings(settings(true, false, true));
    assert_eq!(shown.shown_offsets(), vec![5, 9, 2]);
    shown.change_settings(settings(true, true, true));
    assert_eq!(shown.shown_offsets(), vec![3, 5, 9, 2, 4]);
    shown.change_settings(settings(false, true, true));
    assert!(shown.shown_offsets().is_empty());
    assert!(shown.cache.hints.is_empty());
    shown.change_settings(settings(true, true, true));
    assert!(shown.shown_offsets().is_empty());
}

#[test]
fn hints_are_never_from_a_later_version_than_the_cache() {
    let mut shown = Shown::new();
    let forced = InvalidationStrategy::Forced;
    for offset in 0..5 {
        shown.fetch(4, forced, 0..29, vec![hint(offset, TYPE)]);
        shown.change_settings(settings(true, true, offset % 2 == 0));
        for cached in shown.cache.hints.values() {
            assert!(cached.version <= shown.cache.version);
        }
    }
    let request = shown
        .cache
        .refresh_inlay_hints(HashMap::from([(4, (9, 0..3)), (5, (9, 4..6))]), forced)
        .unwrap();
    assert_eq!(request.excerpts_to_query.len(), 2);
}

#[test]
fn every_hint_has_an_id_of_its_own() {
    let mut shown = Shown::new();
    for round in 0..4 {
        for excerpt_id in [4, 5] {
            let hints = vec![hint(round, TYPE), hint(7, PARAMETER), hint(10 + round, None)];
            shown.fetch(excerpt_id, InvalidationStrategy::OnConflict, 0..29, hints);
        }
    }
    let mut ids = shown.ids(4);
    ids.extend(shown.ids(5));
    let numbers: BTreeSet<usize> = ids
        .iter()
        .map(|id| match id {
            InlayId::Hint(number) => *number,
            InlayId::Suggestion(_) => unreachable!(),
        })
        .collect();
    assert_eq!(numbers.len(), 6);
    assert!(numbers.iter().all(|number| *number < shown.next_inlay_id));
}

#[test]
fn kinds_are_those_of_the_settings_once_something_changes() {
    let mut shown = Shown::new();
    shown.fetch(4, InvalidationStrategy::Forced, 0..29, vec![hint(3, None)]);
    shown.change_settings(settings(true, false, true));
    assert!(shown.cache.allowed_hint_kinds.contains(TYPE));
    shown.fetch(4, InvalidationStrategy::Forced, 0..29, vec![hint(3, TYPE)]);
    shown.change_settings(settings(true, false, true));
    assert!(!shown.cache.allowed_hint_kinds.contains(TYPE));
    assert!(shown.cache.allowed_hint_kinds.contains(PARAMETER));
    assert_eq!(shown.cache.version, 3);
}

#[test]
fn versions_without_later_edits_agree() {
    let a = Global { values: vec![4, 2, 0] };
    let b = Global { values: vec![4, 2] };
    let c = Global { values: vec![4, 3] };
    assert!(!a.changed_since(&b) && !b.changed_since(&a));
    assert!(c.changed_since(&a) && !a.changed_since(&c));
}

#[test]
fn same_settings_twice_change_nothing_more() {
    let mut shown = Shown::new();
    shown.fetch(
        4,
        InvalidationStrategy::Forced,
        0..29,
        vec![hint(3, TYPE), hint(5, PARAMETER), hint(9, None)],
    );
    for chosen in [settings(true, false, true), settings(false, true, true), settings(true, true, true)]
    {
        shown.change_settings(chosen);
        let version = shown.cache.version;
        let offsets = shown.shown_offsets();
        shown.change_settings(chosen);
        assert_eq!(shown.cache.version, version);
        assert_eq!(shown.shown_offsets(), offsets);
    }
}

#[test]
fn kinds_changed_there_and_back_restore_what_is_shown() {
    let mut shown = Shown::new();
    let forced = InvalidationStrategy::Forced;
    shown.fetch(4, forced, 0..29, vec![hint(3, TYPE), hint(5, PARAMETER), hint(9, None)]);
    shown.fetch(5, forced, 0..29, vec![hint(2, PARAMETER), hint(4, TYPE)]);
    let before: Vec<InlayId> = shown.inlays.iter().map(|inlay| inlay.id).collect();
    shown.change_settings(settings(true, false, true));
    shown.change_settings(settings(true, true, false));
    let after: Vec<InlayId> = shown.inlays.iter().map(|inlay| inlay.id).collect();
    assert_eq!(after, before);
    assert_eq!(after.len(), 3);
}

#[test]
fn fetched_hints_that_are_fetched_again_change_nothing() {
    for invalidate in [InvalidationStrategy::Never, InvalidationStrategy::OnConflict] {
        let mut shown = Shown::new();
        shown.fetch(4, InvalidationStrategy::Never, 0..29, vec![hint(3, TYPE), hint(20, TYPE)]);
        let fetched = || vec![hint(6, TYPE), hint(8, PARAMETER)];
        assert!(shown.fetch(4, invalidate, 0..10, fetched()));
        assert!(!shown.fetch(4, invalidate, 0..10, fetched()));
        assert!(!shown.fetch(4, InvalidationStrategy::Never, 0..10, fetched()));
    }
}

#[test]
fn hints_at_one_position_may_be_fetched_as_new_again() {
    let mut shown = Shown::new();
    let fetched = || vec![hint(3, TYPE), hint(3, PARAMETER)];
    assert!(shown.fetch(4, InvalidationStrategy::Forced, 0..29, fetched()));
    assert!(shown.fetch(4, InvalidationStrategy::Forced, 0..29, fetched()));
    assert_eq!(shown.offsets(4), vec![3, 3]);
}

#[test]
fn inlays_stand_at_the_positions_of_their_hints() {
    let mut shown = Shown::new();
    let forced = InvalidationStrategy::Forced;
    shown.fetch(4, forced, 0..29, vec![hint(3, TYPE), hint(5, PARAMETER), hint(9, None)]);
    shown.change_settings(settings(true, true, true));
    shown.fetch(4, forced, 4..29, vec![hint(6, TYPE), hint(9, None)]);
    shown.change_settings(settings(true, true, false));
    let shown_now: Vec<(InlayId, usize)> = shown
        .inlays
        .iter()
        .map(|inlay| (inlay.id, inlay.position.text_anchor.offset))
        .collect();
    assert_eq!(
        shown_now,
        vec![(InlayId::Hint(0), 3), (InlayId::Hint(3), 6), (InlayId::Hint(2), 9)]
    );
}

#[test]
fn ranges_that_are_fetched_side_by_side_keep_each_other_s_hints() {
    let mut shown = Shown::new();
    let mut updates = Vec::new();
    let ranges = [(0..9, hint(3, TYPE)), (10..19, hint(12, TYPE)), (20..29, hint(25, None))];
    for (range, fetched) in ranges {
        let query = ExcerptQuery {
            buffer_id: 9,
            excerpt_id: 4,
            dimensions: ExcerptDimensions {
                excerpt_range_start: anchor(0),
                excerpt_range_end: anchor(29),
                excerpt_visible_range_start: anchor(10),
                excerpt_visible_range_end: anchor(19),
            },
            cache_version: 0,
            invalidate: InvalidationStrategy::Forced,
        };
        let range = anchor(range.start)..anchor(range.end);
        let update =
            calculate_hint_updates(query, range, vec![fetched], &snapshot(), None, &[]).unwrap();
        updates.push(update);
    }
    for update in updates {
        let splice = shown
            .cache
            .apply_hint_update(update, &snapshot(), &multi_buffer(), &mut shown.next_inlay_id)
            .unwrap();
        shown.splice(splice);
    }
    assert_eq!(shown.offsets(4), vec![3, 12, 25]);
    assert_eq!(shown.shown_offsets(), vec![3, 12, 25]);
}
