use std::collections::HashMap;
use std::ops::ControlFlow;

use inlay_hint_cache::anchor::{
    Anchor, Bias, BufferSnapshot, ExcerptId, MultiBufferSnapshot, RankedAnchor, TextAnchor,
};
use inlay_hint_cache::cache::InlayHintCache;
use inlay_hint_cache::clock::Global;
use inlay_hint_cache::hint::{
    Inlay, InlayHint, InlayHintKind, InlayHintLabel, InlayHintSettings, InlayId,
};
use inlay_hint_cache::query::InvalidationStrategy;
use inlay_hint_cache::tasks::{ExcerptStep, NewUpdateTask, VisibleExcerpt};
use inlay_hint_cache::updates::ExcerptHintsUpdate;

fn settings(enabled: bool, types: bool, parameters: bool, others: bool) -> InlayHintSettings {
    InlayHintSettings {
        enabled,
        show_type_hints: types,
        show_parameter_hints: parameters,
        show_other_hints: others,
    }
}

fn anchor(offset: usize) -> TextAnchor {
    TextAnchor { insertion: 1, offset, bias: Bias::Left }
}

fn snapshot(version: u32) -> BufferSnapshot {
    let mut ranks = Vec::new();
    for offset in 0..20 {
        ranks.push(RankedAnchor { anchor: anchor(offset), rank: offset as u64 });
    }
    BufferSnapshot { version: Global { values: vec![version] }, ranks }
}

fn multi_buffer() -> MultiBufferSnapshot {
    MultiBufferSnapshot {
        buffers: HashMap::from([(9, snapshot(1))]),
        excerpts: HashMap::from([(4, 9), (5, 9)]),
    }
}

fn hint(offset: usize, kind: Option<InlayHintKind>) -> InlayHint {
    InlayHint {
        position: anchor(offset),
        label: InlayHintLabel::String(offset.to_string()),
        kind,
        padding_left: false,
        padding_right: false,
        tooltip: None,
    }
}

fn inlay(id: usize, excerpt_id: ExcerptId, offset: usize) -> Inlay {
    Inlay {
        id: InlayId::Hint(id),
        position: Anchor { buffer_id: Some(9), excerpt_id, text_anchor: anchor(offset) },
    }
}

fn adding(excerpt_id: ExcerptId, cache_version: usize, hints: Vec<InlayHint>) -> ExcerptHintsUpdate {
    ExcerptHintsUpdate {
        excerpt_id,
        cache_version,
        remove_from_visible: Vec::new(),
        remove_from_cache: Vec::new(),
        add_to_cache: hints,
    }
}

/// A cache with a type hint, a parameter hint and another one for one excerpt.
fn filled() -> (InlayHintCache, usize) {
    let mut cache = InlayHintCache::new(settings(true, true, false, true));
    let mut next_inlay_id = 10;
    let hints = vec![
        hint(3, None),
        hint(1, Some(InlayHintKind::Type)),
        hint(2, Some(InlayHintKind::Parameter)),
    ];
    let splice = cache
        .apply_hint_update(
            adding(4, 0, hints),
            &snapshot(1),
            &multi_buffer(),
            &mut next_inlay_id,
        )
        .unwrap();
    assert!(splice.to_remove.is_empty());
    let inserted: Vec<(Anchor, InlayId)> =
        splice.to_insert.iter().map(|(position, id, _)| (*position, *id)).collect();
    assert_eq!(
        inserted,
        vec![
            (inlay(10, 4, 3).position, InlayId::Hint(10)),
            (inlay(11, 4, 1).position, InlayId::Hint(11)),
        ]
    );
    (cache, next_inlay_id)
}

fn cached_ids(cache: &InlayHintCache, excerpt_id: ExcerptId) -> Vec<InlayId> {
    cache.hints[&excerpt_id].hints.iter().map(|(id, _)| *id).collect()
}

fn visible_excerpt(excerpt_id: ExcerptId, version: u32) -> VisibleExcerpt {
    VisibleExcerpt {
        excerpt_id,
        visible_range: 2..8,
        buffer_id: 9,
        buffer_version: Global { values: vec![version] },
        visible_range_start: anchor(2),
        visible_range_end: anchor(8),
        buffer_excerpts: vec![(4, anchor(0)..anchor(9)), (5, anchor(10)..anchor(19))],
    }
}

fn start_task(cache: &mut InlayHintCache, task: NewUpdateTask) -> smol::channel::Sender<()> {
    let (is_running_tx, is_running_rx) = smol::channel::bounded(1);
    cache.insert_update_task(task, is_running_rx, smol::spawn(async {}));
    is_running_tx
}

#[test]
fn new_cache_is_empty() {
    let cache = InlayHintCache::new(settings(true, false, true, false));
    assert!(cache.enabled);
    assert_eq!(cache.version, 0);
    assert!(cache.hints.is_empty());
    assert!(cache.update_tasks.is_empty());
    assert!(cache.allowed_hint_kinds.contains(Some(InlayHintKind::Parameter)));
    assert!(!cache.allowed_hint_kinds.contains(None));
}

#[test]
fn update_is_cached_in_order() {
    let (cache, next_inlay_id) = filled();
    assert_eq!(next_inlay_id, 13);
    assert_eq!(cache.version, 1);
    assert_eq!(
        cached_ids(&cache, 4),
        vec![InlayId::Hint(11), InlayId::Hint(12), InlayId::Hint(10)]
    );
    assert_eq!(cache.hints[&4].version, 0);
    assert_eq!(cache.hints[&4].buffer_version.values, vec![1]);
}

#[test]
fn update_removes_and_adds() {
    let (mut cache, mut next_inlay_id) = filled();
    let mut update = adding(4, 1, vec![hint(0, Some(InlayHintKind::Parameter))]);
    update.remove_from_cache = vec![InlayId::Hint(12)];
    update.remove_from_visible = vec![InlayId::Hint(11)];
    let splice = cache
        .apply_hint_update(update, &snapshot(2), &multi_buffer(), &mut next_inlay_id)
        .unwrap();
    assert_eq!(splice.to_remove, vec![InlayId::Hint(11)]);
    assert!(splice.to_insert.is_empty());
    assert_eq!(
        cached_ids(&cache, 4),
        vec![InlayId::Hint(13), InlayId::Hint(11), InlayId::Hint(10)]
    );
    assert_eq!(cache.version, 2);
    assert_eq!(cache.hints[&4].version, 1);
    assert_eq!(cache.hints[&4].buffer_version.values, vec![2]);
}

#[test]
fn update_that_shows_nothing_needs_no_splice() {
    let (mut cache, mut next_inlay_id) = filled();
    let splice = cache.apply_hint_update(
        adding(5, 1, vec![hint(12, Some(InlayHintKind::Parameter))]),
        &snapshot(1),
        &multi_buffer(),
        &mut next_inlay_id,
    );
    assert!(splice.is_none());
    assert_eq!(cache.version, 2);
    assert_eq!(cached_ids(&cache, 5), vec![InlayId::Hint(13)]);
}

#[test]
fn outdated_update_is_dropped() {
    let (mut cache, mut next_inlay_id) = filled();
    cache.apply_hint_update(
        adding(4, 2, vec![hint(5, None)]),
        &snapshot(1),
        &multi_buffer(),
        &mut next_inlay_id,
    );
    let before = cached_ids(&cache, 4);
    let splice = cache.apply_hint_update(
        adding(4, 1, vec![hint(6, None)]),
        &snapshot(1),
        &multi_buffer(),
        &mut next_inlay_id,
    );
    assert!(splice.is_none());
    assert_eq!(cached_ids(&cache, 4), before);
    assert_eq!(cache.version, 2);
    assert_eq!(next_inlay_id, 14);
}

#[test]
fn settings_that_stay_change_nothing() {
    let (mut cache, _) = filled();
    let visible = vec![inlay(11, 4, 1), inlay(10, 4, 3)];
    let flow =
        cache.update_settings(&multi_buffer(), settings(true, true, false, true), visible);
    assert!(matches!(flow, ControlFlow::Break(None)));
    assert_eq!(cache.version, 1);
}

#[test]
fn other_kinds_bring_a_splice() {
    let (mut cache, _) = filled();
    start_task(
        &mut cache,
        match filled().0.plan_update_task(
            &visible_excerpt(5, 1),
            false,
            InvalidationStrategy::Never,
            1,
        ) {
            ExcerptStep::Start(task) => task,
            _ => unreachable!(),
        },
    );
    let visible = vec![inlay(11, 4, 1), inlay(10, 4, 3)];
    let flow =
        cache.update_settings(&multi_buffer(), settings(true, false, true, true), visible);
    match flow {
        ControlFlow::Break(Some(splice)) => {
            assert_eq!(splice.to_remove, vec![InlayId::Hint(11)]);
            assert_eq!(splice.to_insert.len(), 1);
            assert_eq!(splice.to_insert[0].1, InlayId::Hint(12));
        }
        _ => panic!("a splice is due"),
    }
    assert_eq!(cache.version, 2);
    assert!(cache.update_tasks.is_empty());
    assert_eq!(cached_ids(&cache, 4).len(), 3);
    assert!(cache.allowed_hint_kinds.contains(Some(InlayHintKind::Parameter)));
}

#[test]
fn kinds_stay_where_no_hint_appears_or_disappears() {
    let mut cache = InlayHintCache::new(settings(true, true, false, true));
    let flow =
        cache.update_settings(&multi_buffer(), settings(true, false, true, true), Vec::new());
    assert!(matches!(flow, ControlFlow::Break(None)));
    assert_eq!(cache.version, 0);
    assert!(cache.allowed_hint_kinds.contains(Some(InlayHintKind::Type)));
    assert!(!cache.allowed_hint_kinds.contains(Some(InlayHintKind::Parameter)));
}

#[test]
fn switching_off_clears_the_cache() {
    let (mut cache, _) = filled();
    let visible = vec![inlay(11, 4, 1), inlay(10, 4, 3)];
    let flow =
        cache.update_settings(&multi_buffer(), settings(false, false, true, false), visible);
    match flow {
        ControlFlow::Break(Some(splice)) => {
            assert_eq!(splice.to_remove, vec![InlayId::Hint(11), InlayId::Hint(10)]);
            assert!(splice.to_insert.is_empty());
        }
        _ => panic!("a splice is due"),
    }
    assert!(!cache.enabled);
    assert!(cache.hints.is_empty());
    assert_eq!(cache.version, 2);

    let flow =
        cache.update_settings(&multi_buffer(), settings(false, true, false, false), Vec::new());
    assert!(matches!(flow, ControlFlow::Break(None)));
    assert!(cache.allowed_hint_kinds.contains(Some(InlayHintKind::Type)));
    assert_eq!(cache.version, 2);

    let flow =
        cache.update_settings(&multi_buffer(), settings(true, true, true, false), Vec::new());
    assert!(matches!(flow, ControlFlow::Continue(())));
    assert!(cache.enabled);
    assert_eq!(cache.version, 2);
}

#[test]
fn switching_off_an_empty_cache_needs_no_splice() {
    let mut cache = InlayHintCache::new(settings(true, true, false, true));
    let flow =
        cache.update_settings(&multi_buffer(), settings(false, true, false, true), Vec::new());
    assert!(matches!(flow, ControlFlow::Break(None)));
    assert!(!cache.enabled);
    assert_eq!(cache.version, 0);
}

#[test]
fn refresh_asks_nothing_while_switched_off() {
    let mut cache = InlayHintCache::new(settings(false, true, true, true));
    let queried = HashMap::from([(4, (9, 0..5))]);
    assert!(cache.refresh_inlay_hints(queried, InvalidationStrategy::Forced).is_none());
}

fn query_of(cache: &InlayHintCache, excerpt_id: ExcerptId, cache_version: usize) -> NewUpdateTask {
    match cache.plan_update_task(
        &visible_excerpt(excerpt_id, 1),
        false,
        InvalidationStrategy::Never,
        cache_version,
    ) {
        ExcerptStep::Start(task) => task,
        _ => unreachable!(),
    }
}

#[test]
fn refresh_asks_for_excerpts_without_a_task_of_this_version() {
    let mut cache = InlayHintCache::new(settings(true, true, true, true));
    let older = query_of(&cache, 4, 0);
    cache.version = 1;
    let present = query_of(&cache, 5, 1);
    let _older_tx = start_task(&mut cache, older);
    let _present_tx = start_task(&mut cache, present);
    let queried = || HashMap::from([(4, (9, 0..5)), (5, (9, 1..6)), (6, (9, 2..7))]);
    let asked = |cache: &mut InlayHintCache, strategy| {
        let request = cache.refresh_inlay_hints(queried(), strategy).unwrap();
        assert_eq!(request.cache_version, 1);
        assert_eq!(request.invalidate, strategy);
        let mut ids: Vec<ExcerptId> = request.excerpts_to_query.keys().copied().collect();
        ids.sort();
        assert_eq!(request.excerpts_to_query[&6], (9, 2..7));
        ids
    };
    assert_eq!(asked(&mut cache, InvalidationStrategy::Never), vec![4, 6]);
    assert_eq!(asked(&mut cache, InvalidationStrategy::OnConflict), vec![4, 5, 6]);
    assert_eq!(asked(&mut cache, InvalidationStrategy::Forced), vec![4, 5, 6]);
    cache.version = 0;
    let request = cache.refresh_inlay_hints(queried(), InvalidationStrategy::Forced).unwrap();
    assert!(!request.excerpts_to_query.contains_key(&5));
}

#[test]
fn invalidating_refresh_ends_tasks_of_other_excerpts() {
    let mut cache = InlayHintCache::new(settings(true, true, true, true));
    for excerpt_id in [4, 5] {
        let task = query_of(&cache, excerpt_id, 0);
        start_task(&mut cache, task);
    }
    cache.refresh_inlay_hints(HashMap::from([(4, (9, 0..5))]), InvalidationStrategy::Never);
    assert_eq!(cache.update_tasks.len(), 2);
    cache.refresh_inlay_hints(HashMap::from([(4, (9, 0..5))]), InvalidationStrategy::OnConflict);
    assert_eq!(cache.update_tasks.len(), 1);
    assert!(cache.current_task_channel(4).is_some());
    assert!(cache.current_task_channel(5).is_none());
}

#[test]
fn tasks_are_planned_for_visible_excerpts() {
    let cache = InlayHintCache::new(settings(true, true, true, true));
    let mut hidden = visible_excerpt(4, 1);
    hidden.visible_range = 8..8;
    let unknown = visible_excerpt(6, 1);
    let tasks = cache.spawn_new_update_tasks(
        &vec![hidden, unknown, visible_excerpt(4, 1), visible_excerpt(5, 1)],
        InvalidationStrategy::Forced,
        7,
    );
    assert_eq!(tasks.len(), 2);
    assert_eq!(tasks[0].query.excerpt_id, 4);
    assert_eq!(tasks[0].query.buffer_id, 9);
    assert_eq!(tasks[0].query.cache_version, 7);
    assert_eq!(tasks[0].query.invalidate, InvalidationStrategy::Forced);
    assert_eq!(tasks[0].query.dimensions.excerpt_range_start, anchor(0));
    assert_eq!(tasks[0].query.dimensions.excerpt_range_end, anchor(9));
    assert_eq!(tasks[0].query.dimensions.excerpt_visible_range_start, anchor(2));
    assert_eq!(tasks[0].query.dimensions.excerpt_visible_range_end, anchor(8));
    assert!(!tasks[0].follows_current);
    assert!(!tasks[0].has_cached_hints);
    assert_eq!(tasks[1].query.excerpt_id, 5);
}

#[test]
fn hints_that_are_up_to_date_stop_the_plan() {
    let (cache, _) = filled();
    let plan = |version: u32, strategy, cache_version| {
        cache.spawn_new_update_tasks(
            &vec![visible_excerpt(4, version), visible_excerpt(5, version)],
            strategy,
            cache_version,
        )
    };
    // Fetched for this version of the buffer, and no fetch is forced.
    assert!(plan(1, InvalidationStrategy::OnConflict, 1).is_empty());
    // Fetched for a later version of the buffer.
    assert!(plan(0, InvalidationStrategy::Forced, 1).is_empty());
    // Fetched for an earlier version of the buffer.
    assert_eq!(plan(2, InvalidationStrategy::Never, 1).len(), 2);
    // Fetched for this version of the buffer, and a fetch is forced.
    let forced = plan(1, InvalidationStrategy::Forced, 1);
    assert_eq!(forced.len(), 2);
    assert!(forced[0].has_cached_hints);
    assert!(!forced[1].has_cached_hints);
}

#[test]
fn hints_that_were_asked_for_later_stop_the_plan() {
    let (mut cache, mut next_inlay_id) = filled();
    cache.apply_hint_update(
        adding(4, 5, vec![hint(7, None)]),
        &snapshot(1),
        &multi_buffer(),
        &mut next_inlay_id,
    );
    let plan = |cache_version| {
        cache.spawn_new_update_tasks(
            &vec![visible_excerpt(4, 2)],
            InvalidationStrategy::Forced,
            cache_version,
        )
    };
    assert!(plan(4).is_empty());
    assert_eq!(plan(5).len(), 1);
}

#[test]
fn forced_task_follows_the_running_one() {
    let (mut cache, _) = filled();
    let excerpts = || vec![visible_excerpt(4, 1)];
    let first = query_of(&cache, 5, 1);
    let first = NewUpdateTask {
        query: inlay_hint_cache::query::ExcerptQuery { excerpt_id: 4, ..first.query },
        ..first
    };
    let first_tx = start_task(&mut cache, first);
    let planned = cache.spawn_new_update_tasks(&excerpts(), InvalidationStrategy::Forced, 1);
    assert_eq!(planned.len(), 1);
    assert!(planned[0].follows_current);
    let second_tx = start_task(&mut cache, planned[0]);
    assert!(cache.update_tasks[&4].pending_refresh.is_some());
    assert_eq!(cache.update_tasks[&4].current.0, InvalidationStrategy::Never);
    assert!(cache.spawn_new_update_tasks(&excerpts(), InvalidationStrategy::Forced, 1).is_empty());
    drop(first_tx);
    assert!(cache.spawn_new_update_tasks(&excerpts(), InvalidationStrategy::Forced, 1).is_empty());
    drop(second_tx);
    let planned = cache.spawn_new_update_tasks(&excerpts(), InvalidationStrategy::Forced, 1);
    assert!(!planned[0].follows_current);
    start_task(&mut cache, planned[0]);
    assert!(cache.update_tasks[&4].pending_refresh.is_none());
    assert_eq!(cache.update_tasks[&4].current.0, InvalidationStrategy::Forced);
}

#[test]
fn last_version_allows_settings_that_need_none() {
    let (mut cache, _) = filled();
    cache.version = usize::MAX;
    let visible = vec![inlay(11, 4, 1), inlay(10, 4, 3)];
    let has_version = |cache: &InlayHintCache, settings: InlayHintSettings| {
        cache.has_version_for_settings(&multi_buffer(), settings, &visible)
    };
    assert!(has_version(&cache, settings(true, true, false, true)));
    assert!(!has_version(&cache, settings(true, false, false, true)));
    assert!(!has_version(&cache, settings(false, true, false, true)));
    cache.version = usize::MAX - 1;
    assert!(has_version(&cache, settings(true, false, false, true)));
    let mut empty = InlayHintCache::new(settings(true, true, false, true));
    empty.version = usize::MAX;
    assert!(empty.has_version_for_settings(
        &multi_buffer(),
        settings(true, false, true, true),
        &[]
    ));
    assert!(empty.has_version_for_settings(
        &multi_buffer(),
        settings(false, false, true, true),
        &[]
    ));
}

#[test]
fn plan_goes_by_the_task_of_each_excerpt() {
    let mut cache = InlayHintCache::new(settings(true, true, true, true));
    let ended = query_of(&cache, 4, 0);
    let running = query_of(&cache, 5, 0);
    drop(start_task(&mut cache, ended));
    let _running_tx = start_task(&mut cache, running);
    let planned = cache.spawn_new_update_tasks(
        &vec![visible_excerpt(5, 1), visible_excerpt(4, 1)],
        InvalidationStrategy::Never,
        0,
    );
    assert_eq!(planned.len(), 1);
    assert_eq!(planned[0].query.excerpt_id, 4);
}

#[test]
fn refresh_does_with_each_task_what_is_decided() {
    let (mut cache, _) = filled();
    // Excerpt 4 has cached hints and a task that runs, excerpt 5 neither, excerpt 8 is not shown.
    let of_excerpt = |cache: &InlayHintCache, excerpt_id: ExcerptId| {
        let task = query_of(cache, 5, 1);
        NewUpdateTask {
            query: inlay_hint_cache::query::ExcerptQuery { excerpt_id, ..task.query },
            ..task
        }
    };
    let first = of_excerpt(&cache, 4);
    let _first_tx = start_task(&mut cache, first);
    let hidden = of_excerpt(&cache, 8);
    let _hidden_tx = start_task(&mut cache, hidden);
    let planned = cache.spawn_new_update_tasks(
        &vec![visible_excerpt(5, 1), visible_excerpt(4, 1)],
        InvalidationStrategy::Forced,
        1,
    );
    assert_eq!(planned.len(), 2);
    let _senders: Vec<smol::channel::Sender<()>> =
        planned.into_iter().map(|task| start_task(&mut cache, task)).collect();
    assert_eq!(cache.update_tasks.len(), 3);
    assert_eq!(cache.update_tasks[&4].current.0, InvalidationStrategy::Never);
    assert!(cache.update_tasks[&4].pending_refresh.is_some());
    assert_eq!(cache.update_tasks[&5].current.0, InvalidationStrategy::Forced);
    assert!(cache.update_tasks[&5].pending_refresh.is_none());
    assert!(cache.update_tasks[&8].pending_refresh.is_none());
    assert_eq!(cache.version, 1);
    assert_eq!(cached_ids(&cache, 4).len(), 3);
}
