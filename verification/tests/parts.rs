use std::collections::HashMap;
use std::ops::Range;

use inlay_hint_cache::anchor::{
    contains_position, Anchor, Bias, BufferSnapshot, ExcerptId, MultiBufferSnapshot, RankedAnchor,
    TextAnchor,
};
use inlay_hint_cache::clock::Global;
use inlay_hint_cache::hint::{
    HintKinds, Inlay, InlayHint, InlayHintKind, InlayHintLabel, InlayHintSettings, InlayId,
};
use inlay_hint_cache::order::{search_position, sort_by_position};
use inlay_hint_cache::query::{ExcerptDimensions, ExcerptQuery, InvalidationStrategy};
use inlay_hint_cache::splice::{splice_along, walk_excerpts, InlaySplice};
use inlay_hint_cache::tasks::{
    decide, new_update_task, FetchOutcome, RunStage, SpawnedTask, TaskDecision, UpdateRun,
    UpdateTask, VisibleExcerpt,
};
use inlay_hint_cache::updates::{
    calculate_hint_updates, CachedExcerptHints, ExcerptHintsUpdate,
};

fn anchor(offset: usize) -> TextAnchor {
    TextAnchor { insertion: 1, offset, bias: Bias::Left }
}

fn snapshot() -> BufferSnapshot {
    let mut ranks = Vec::new();
    for offset in 0..20 {
        ranks.push(RankedAnchor { anchor: anchor(offset), rank: offset as u64 });
    }
    BufferSnapshot { version: Global::new(), ranks }
}

fn hint(offset: usize, text: &str, kind: Option<InlayHintKind>) -> InlayHint {
    InlayHint {
        position: anchor(offset),
        label: InlayHintLabel::String(text.to_string()),
        kind,
        padding_left: false,
        padding_right: true,
        tooltip: Some("tip".to_string()),
    }
}

fn other(offset: usize, text: &str) -> InlayHint {
    hint(offset, text, None)
}

fn inlay(id: usize, excerpt_id: ExcerptId, offset: usize) -> Inlay {
    Inlay {
        id: InlayId::Hint(id),
        position: Anchor { buffer_id: Some(9), excerpt_id, text_anchor: anchor(offset) },
    }
}

fn cached(hints: Vec<(usize, InlayHint)>) -> CachedExcerptHints {
    CachedExcerptHints {
        version: 0,
        buffer_version: Global::new(),
        hints: hints.into_iter().map(|(id, hint)| (InlayId::Hint(id), hint)).collect(),
    }
}

fn query(invalidate: InvalidationStrategy) -> ExcerptQuery {
    ExcerptQuery {
        buffer_id: 9,
        excerpt_id: 4,
        dimensions: ExcerptDimensions {
            excerpt_range_start: anchor(0),
            excerpt_range_end: anchor(19),
            excerpt_visible_range_start: anchor(5),
            excerpt_visible_range_end: anchor(10),
        },
        cache_version: 6,
        invalidate,
    }
}

fn ids(numbers: &[usize]) -> Vec<InlayId> {
    numbers.iter().map(|number| InlayId::Hint(*number)).collect()
}

fn texts(hints: &[InlayHint]) -> Vec<String> {
    hints
        .iter()
        .map(|hint| match &hint.label {
            InlayHintLabel::String(text) => text.clone(),
            InlayHintLabel::LabelParts(parts) => parts.concat(),
        })
        .collect()
}

fn update(
    invalidate: InvalidationStrategy,
    range: Range<usize>,
    new_hints: Vec<InlayHint>,
    cached: Option<&CachedExcerptHints>,
    visible: &[Inlay],
) -> Option<ExcerptHintsUpdate> {
    calculate_hint_updates(
        query(invalidate),
        anchor(range.start)..anchor(range.end),
        new_hints,
        &snapshot(),
        cached,
        visible,
    )
}

#[test]
fn version_changes_with_an_edit_of_any_replica() {
    let version = |values: &[u32]| Global { values: values.to_vec() };
    assert!(version(&[1, 2]).changed_since(&version(&[1, 1])));
    assert!(version(&[1, 2]).changed_since(&version(&[1])));
    assert!(version(&[2]).changed_since(&version(&[1, 5])));
    assert!(!version(&[1]).changed_since(&version(&[1, 5])));
    assert!(!version(&[1, 0]).changed_since(&version(&[1])));
    assert!(!version(&[]).changed_since(&Global::new()));
    assert_eq!(version(&[3, 4]).clone().values, vec![3, 4]);
}

#[test]
fn rank_is_that_of_the_first_entry() {
    let mut snapshot = snapshot();
    snapshot.ranks.push(RankedAnchor { anchor: anchor(3), rank: 99 });
    assert_eq!(snapshot.rank(anchor(3)), 3);
    assert_eq!(snapshot.rank(TextAnchor { bias: Bias::Right, ..anchor(3) }), 0);
    assert_eq!(snapshot.rank(TextAnchor { insertion: 2, ..anchor(3) }), 0);
}

#[test]
fn range_contains_both_its_ends() {
    let range = anchor(3)..anchor(5);
    let inside: Vec<usize> =
        (0..20).filter(|at| contains_position(&range, anchor(*at), &snapshot())).collect();
    assert_eq!(inside, vec![3, 4, 5]);
}

#[test]
fn multi_buffer_finds_buffers_and_excerpts() {
    let multi_buffer = MultiBufferSnapshot {
        buffers: HashMap::from([(9, snapshot())]),
        excerpts: HashMap::from([(4, 9)]),
    };
    assert!(multi_buffer.buffer(Some(9)).is_some());
    assert!(multi_buffer.buffer(Some(8)).is_none());
    assert!(multi_buffer.buffer(None).is_none());
    assert_eq!(multi_buffer.anchor_in_excerpt(4, anchor(2)), inlay(0, 4, 2).position);
    assert_eq!(multi_buffer.anchor_in_excerpt(5, anchor(2)).buffer_id, None);
}

#[test]
fn hints_are_compared_in_all_their_parts() {
    let original = other(1, "a");
    assert!(original.same_as(&original.clone()));
    assert!(!original.same_as(&other(2, "a")));
    assert!(!original.same_as(&other(1, "b")));
    assert!(!original.same_as(&hint(1, "a", Some(InlayHintKind::Type))));
    assert!(!original.same_as(&InlayHint { padding_left: true, ..other(1, "a") }));
    assert!(!original.same_as(&InlayHint { padding_right: false, ..other(1, "a") }));
    assert!(!original.same_as(&InlayHint { tooltip: None, ..other(1, "a") }));
    let parts = |texts: &[&str]| {
        InlayHintLabel::LabelParts(texts.iter().map(|text| text.to_string()).collect())
    };
    assert!(parts(&["a", "b"]).same_as(&parts(&["a", "b"]).clone()));
    assert!(!parts(&["a", "b"]).same_as(&parts(&["a", "c"])));
    assert!(!parts(&["a", "b"]).same_as(&parts(&["a"])));
    assert!(!parts(&["a"]).same_as(&InlayHintLabel::String("a".to_string())));
}

#[test]
fn settings_choose_kinds() {
    let settings = InlayHintSettings {
        enabled: true,
        show_type_hints: true,
        show_parameter_hints: false,
        show_other_hints: true,
    };
    let kinds = settings.enabled_inlay_hint_kinds();
    assert!(kinds.contains(Some(InlayHintKind::Type)));
    assert!(!kinds.contains(Some(InlayHintKind::Parameter)));
    assert!(kinds.contains(None));
    let mut same = HintKinds::new();
    same.insert(None);
    assert!(!kinds.same_as(&same));
    same.insert(Some(InlayHintKind::Type));
    assert!(kinds.same_as(&same));
}

#[test]
fn search_finds_hints_by_position() {
    let hints = cached(vec![(0, other(1, "a")), (1, other(3, "b")), (2, other(7, "c"))]).hints;
    let found: Vec<Option<usize>> =
        [1, 3, 7, 0, 2, 9].iter().map(|at| search_position(&hints, anchor(*at), &snapshot())).collect();
    assert_eq!(found, vec![Some(0), Some(1), Some(2), None, None, None]);
    assert_eq!(search_position(&Vec::new(), anchor(1), &snapshot()), None);
}

#[test]
fn sort_keeps_the_order_of_hints_at_one_position() {
    let hints = cached(vec![
        (0, other(7, "a")),
        (1, other(3, "b")),
        (2, other(7, "c")),
        (3, other(1, "d")),
        (4, other(3, "e")),
    ])
    .hints;
    let sorted: Vec<InlayId> =
        sort_by_position(hints, &snapshot()).into_iter().map(|(id, _)| id).collect();
    assert_eq!(sorted, ids(&[3, 1, 4, 0, 2]));
}

#[test]
fn fetch_ranges_surround_the_visible_part() {
    let query = query(InvalidationStrategy::Never);
    let ranges = query.hints_fetch_ranges(&snapshot());
    assert_eq!(ranges.visible_range, anchor(5)..anchor(10));
    assert_eq!(ranges.other_ranges, vec![anchor(0)..anchor(4), anchor(11)..anchor(19)]);
}

#[test]
fn fetch_ranges_of_a_fully_visible_excerpt() {
    let mut query = query(InvalidationStrategy::Never);
    query.dimensions.excerpt_visible_range_start = anchor(0);
    query.dimensions.excerpt_visible_range_end = anchor(19);
    let ranges = query.hints_fetch_ranges(&snapshot());
    assert_eq!(ranges.visible_range, anchor(0)..anchor(19));
    assert!(ranges.other_ranges.is_empty());
}

#[test]
fn neighbours_of_the_visible_part_have_to_exist() {
    let mut snapshot = snapshot();
    let start = TextAnchor { insertion: 2, offset: 0, bias: Bias::Left };
    let end = TextAnchor { insertion: 3, offset: usize::MAX, bias: Bias::Left };
    snapshot.ranks.push(RankedAnchor { anchor: start, rank: 5 });
    snapshot.ranks.push(RankedAnchor { anchor: end, rank: 7 });
    let mut query = query(InvalidationStrategy::Never);
    assert!(query.neighbours_exist(&snapshot));
    query.dimensions.excerpt_visible_range_start = start;
    assert!(!query.neighbours_exist(&snapshot));
    query.dimensions.excerpt_range_start = start;
    assert!(query.neighbours_exist(&snapshot));
    query.dimensions.excerpt_visible_range_end = end;
    assert!(!query.neighbours_exist(&snapshot));
}

#[test]
fn fetched_hints_are_added_once_and_only_in_range() {
    let new_hints = vec![other(2, "a"), other(9, "out"), other(1, "b"), other(2, "a")];
    let update = update(InvalidationStrategy::Never, 1..5, new_hints, None, &[]).unwrap();
    assert_eq!(update.excerpt_id, 4);
    assert_eq!(update.cache_version, 6);
    assert_eq!(texts(&update.add_to_cache), vec!["a".to_string(), "b".to_string()]);
    assert!(update.remove_from_cache.is_empty());
    assert!(update.remove_from_visible.is_empty());
}

#[test]
fn cached_hints_that_are_not_fetched_again_are_removed() {
    let cached = cached(vec![(0, other(1, "a")), (1, other(2, "b")), (2, other(9, "c"))]);
    let visible = vec![inlay(0, 4, 1), inlay(1, 4, 2), inlay(2, 4, 9), inlay(7, 5, 2)];
    let fetched = vec![other(1, "a"), other(2, "new")];
    let conflict =
        update(InvalidationStrategy::OnConflict, 0..5, fetched.clone(), Some(&cached), &visible)
            .unwrap();
    assert_eq!(texts(&conflict.add_to_cache), vec!["new".to_string()]);
    assert_eq!(conflict.remove_from_cache, ids(&[1]));
    assert_eq!(conflict.remove_from_visible, ids(&[1]));
    let plain =
        update(InvalidationStrategy::Never, 0..5, fetched, Some(&cached), &visible).unwrap();
    assert_eq!(texts(&plain.add_to_cache), vec!["new".to_string()]);
    assert!(plain.remove_from_cache.is_empty());
    assert!(plain.remove_from_visible.is_empty());
}

#[test]
fn same_hints_bring_no_update() {
    let cached = cached(vec![(0, other(1, "a")), (1, other(2, "b"))]);
    let visible = vec![inlay(0, 4, 1), inlay(1, 4, 2)];
    let fetched = vec![other(2, "b"), other(1, "a"), other(2, "b")];
    assert!(update(InvalidationStrategy::Forced, 0..5, fetched, Some(&cached), &visible).is_none());
    assert!(update(InvalidationStrategy::Forced, 0..5, Vec::new(), None, &[]).is_none());
}

#[test]
fn inlays_without_cached_hints_are_removed() {
    let update =
        update(InvalidationStrategy::Forced, 0..5, Vec::new(), None, &[inlay(3, 4, 1)]).unwrap();
    assert_eq!(update.remove_from_visible, ids(&[3]));
    assert!(update.changes_anything());
}

fn kinds(types: bool, parameters: bool, others: bool) -> HintKinds {
    HintKinds { types, parameters, others }
}

fn multi_buffer() -> MultiBufferSnapshot {
    MultiBufferSnapshot {
        buffers: HashMap::from([(9, snapshot())]),
        excerpts: HashMap::from([(4, 9), (5, 9)]),
    }
}

#[test]
fn splice_follows_the_kinds() {
    let hints = HashMap::from([(
        4,
        cached(vec![
            (0, hint(1, "t", Some(InlayHintKind::Type))),
            (1, hint(2, "p", Some(InlayHintKind::Parameter))),
            (2, other(3, "o")),
            (3, hint(3, "q", Some(InlayHintKind::Parameter))),
        ]),
    )]);
    let visible = vec![inlay(0, 4, 1), inlay(2, 4, 3)];
    let walk = walk_excerpts(&hints, &visible);
    assert_eq!(walk, vec![4]);
    let splice = splice_along(
        &hints,
        &multi_buffer(),
        &visible,
        &kinds(true, false, true),
        &kinds(false, true, true),
        &walk,
    )
    .unwrap();
    assert_eq!(splice.to_remove, ids(&[0]));
    let inserted: Vec<(Anchor, InlayId)> =
        splice.to_insert.iter().map(|(position, id, _)| (*position, *id)).collect();
    assert_eq!(
        inserted,
        vec![
            (inlay(1, 4, 2).position, InlayId::Hint(1)),
            (inlay(3, 4, 3).position, InlayId::Hint(3)),
        ]
    );
}

#[test]
fn splice_removes_inlays_that_are_not_cached() {
    let hints = HashMap::from([(4, cached(vec![(0, other(5, "o"))]))]);
    let mut gone = inlay(8, 4, 6);
    gone.position.buffer_id = Some(77);
    let visible = vec![inlay(6, 4, 1), inlay(0, 4, 5), gone, inlay(7, 5, 2)];
    let walk = walk_excerpts(&hints, &visible);
    assert_eq!(walk, vec![4, 5]);
    let splice = splice_along(
        &hints,
        &multi_buffer(),
        &visible,
        &kinds(true, false, true),
        &kinds(false, false, true),
        &walk,
    )
    .unwrap();
    assert_eq!(splice.to_remove, ids(&[6, 7]));
    assert!(splice.to_insert.is_empty());
}

#[test]
fn splice_that_changes_nothing_is_none() {
    let hints = HashMap::from([(4, cached(vec![(0, other(5, "o"))]))]);
    let visible = vec![inlay(0, 4, 5)];
    let splice = splice_along(
        &hints,
        &multi_buffer(),
        &visible,
        &kinds(false, false, true),
        &kinds(true, false, true),
        &vec![4],
    );
    assert!(splice.is_none());
    let empty = InlaySplice::default();
    assert!(empty.to_remove.is_empty() && empty.to_insert.is_empty());
}

fn spawned(version: usize) -> (SpawnedTask, smol::channel::Sender<()>) {
    let (is_running_tx, is_running_rx) = smol::channel::bounded(1);
    let mut query = query(InvalidationStrategy::Never);
    query.cache_version = version;
    (new_update_task(&query, is_running_rx, smol::spawn(async {})), is_running_tx)
}

#[test]
fn task_runs_until_its_channels_close() {
    let (current, current_tx) = spawned(3);
    let mut task = UpdateTask::new(InvalidationStrategy::OnConflict, current);
    assert_eq!(task.cache_version(), 3);
    assert_eq!(task.invalidation_strategy(), InvalidationStrategy::OnConflict);
    assert!(task.is_running());
    let (pending, pending_tx) = spawned(4);
    task.pending_refresh = Some(pending);
    drop(current_tx);
    assert!(task.is_running());
    drop(pending_tx);
    assert!(!task.is_running());
    assert!(!task.runs_if(true, true));
    assert!(task.runs_if(true, false));
    task.pending_refresh = None;
    assert!(!task.runs_if(true, false));
    assert!(task.runs_if(false, true));
}

#[test]
fn tasks_are_replaced_followed_or_kept() {
    let (forced, never, on_conflict) = (
        InvalidationStrategy::Forced,
        InvalidationStrategy::Never,
        InvalidationStrategy::OnConflict,
    );
    let task = |strategy, with_pending: bool| {
        let mut task = UpdateTask::new(strategy, spawned(0).0);
        if with_pending {
            task.pending_refresh = Some(spawned(0).0);
        }
        task
    };
    assert_eq!(decide(None, false, never, true), TaskDecision::Replace);
    assert_eq!(decide(Some(&task(never, false)), false, never, false), TaskDecision::Replace);
    assert_eq!(decide(Some(&task(never, false)), true, never, false), TaskDecision::Keep);
    assert_eq!(decide(Some(&task(on_conflict, false)), true, never, false), TaskDecision::Keep);
    assert_eq!(decide(Some(&task(forced, false)), true, never, false), TaskDecision::Replace);
    assert_eq!(decide(Some(&task(never, false)), true, on_conflict, false), TaskDecision::Replace);
    assert_eq!(decide(Some(&task(never, false)), true, forced, true), TaskDecision::Replace);
    assert_eq!(decide(Some(&task(never, false)), true, forced, false), TaskDecision::Follow);
    assert_eq!(decide(Some(&task(never, true)), true, forced, false), TaskDecision::Keep);
    assert_eq!(decide(Some(&task(forced, true)), true, forced, false), TaskDecision::Replace);
}

#[test]
fn full_range_is_the_first_of_the_excerpt() {
    let mut excerpt = VisibleExcerpt {
        excerpt_id: 4,
        visible_range: 0..3,
        buffer_id: 9,
        buffer_version: Global::new(),
        visible_range_start: anchor(0),
        visible_range_end: anchor(3),
        buffer_excerpts: vec![
            (5, anchor(0)..anchor(1)),
            (4, anchor(2)..anchor(3)),
            (4, anchor(4)..anchor(5)),
        ],
    };
    assert_eq!(excerpt.full_range(), Some(anchor(2)..anchor(3)));
    excerpt.excerpt_id = 6;
    assert_eq!(excerpt.full_range(), None);
}

#[test]
fn plain_run_fetches_everything_at_once() {
    let ranges = query(InvalidationStrategy::Never).hints_fetch_ranges(&snapshot());
    let mut run = UpdateRun::new(ranges, false);
    assert_eq!(
        run.next_ranges(),
        vec![anchor(5)..anchor(10), anchor(0)..anchor(4), anchor(11)..anchor(19)]
    );
    let outcomes = vec![FetchOutcome::Failed, FetchOutcome::Updated, FetchOutcome::Failed];
    assert_eq!(run.advance(&outcomes), vec![0, 2]);
    assert_eq!(run.stage, RunStage::Finished);
    assert!(run.next_ranges().is_empty());
    assert!(run.advance(&outcomes).is_empty());
}

#[test]
fn following_run_fetches_the_visible_range_first() {
    let start = || {
        UpdateRun::new(query(InvalidationStrategy::Forced).hints_fetch_ranges(&snapshot()), true)
    };
    let mut run = start();
    assert_eq!(run.next_ranges(), vec![anchor(5)..anchor(10)]);
    assert!(run.advance(&vec![FetchOutcome::Updated]).is_empty());
    assert_eq!(run.next_ranges(), vec![anchor(0)..anchor(4), anchor(11)..anchor(19)]);
    assert_eq!(run.advance(&vec![FetchOutcome::Failed, FetchOutcome::Failed]), vec![0]);
    assert_eq!(run.stage, RunStage::Finished);
    let mut unchanged = start();
    assert!(unchanged.advance(&vec![FetchOutcome::Unchanged]).is_empty());
    assert_eq!(unchanged.stage, RunStage::Finished);
    let mut failed = start();
    assert_eq!(failed.advance(&vec![FetchOutcome::Failed]), vec![0]);
    assert_eq!(failed.stage, RunStage::Finished);
}
