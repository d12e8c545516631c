use std::collections::HashMap;
use std::ops::{ControlFlow, Range};

use inlay_hint_cache::anchor::{
    Bias, BufferSnapshot, ExcerptId, MultiBufferSnapshot, RankedAnchor, TextAnchor,
};
use inlay_hint_cache::cache::InlayHintCache;
use inlay_hint_cache::clock::Global;
use inlay_hint_cache::hint::{
    HintKinds, Inlay, InlayHint, InlayHintKind, InlayHintLabel, InlayHintSettings, InlayId,
};
use inlay_hint_cache::query::{ExcerptQuery, InvalidationStrategy};
use inlay_hint_cache::splice::InlaySplice;
use inlay_hint_cache::tasks::{FetchOutcome, UpdateRun, VisibleExcerpt};
use inlay_hint_cache::updates::calculate_hint_updates;

const BUFFER: u64 = 7;
const EXCERPT: ExcerptId = 3;
const LENGTH: usize = 77;

fn anchor(offset: usize) -> TextAnchor {
    TextAnchor { insertion: 1, offset, bias: Bias::Left }
}

fn snapshot(version: u32) -> BufferSnapshot {
    let mut ranks = Vec::new();
    for offset in 0..=LENGTH {
        ranks.push(RankedAnchor { anchor: anchor(offset), rank: offset as u64 + 1 });
    }
    BufferSnapshot { version: Global { values: vec![version] }, ranks }
}

fn multi_buffer(version: u32) -> MultiBufferSnapshot {
    MultiBufferSnapshot {
        buffers: HashMap::from([(BUFFER, snapshot(version))]),
        excerpts: HashMap::from([(EXCERPT, BUFFER)]),
    }
}

fn hint(offset: usize, label: &str, kind: Option<InlayHintKind>) -> InlayHint {
    InlayHint {
        position: anchor(offset),
        label: InlayHintLabel::String(label.to_string()),
        kind,
        padding_left: false,
        padding_right: false,
        tooltip: None,
    }
}

fn label(hint: &InlayHint) -> String {
    match &hint.label {
        InlayHintLabel::String(text) => text.clone(),
        InlayHintLabel::LabelParts(_) => unreachable!(),
    }
}

fn kinds(chosen: &[Option<InlayHintKind>]) -> HintKinds {
    let mut set = HintKinds::new();
    for kind in chosen {
        set.insert(*kind);
    }
    set
}

fn settings(enabled: bool, chosen: &HintKinds) -> InlayHintSettings {
    InlayHintSettings {
        enabled,
        show_type_hints: chosen.contains(Some(InlayHintKind::Type)),
        show_parameter_hints: chosen.contains(Some(InlayHintKind::Parameter)),
        show_other_hints: chosen.contains(None),
    }
}

/// An editor with one excerpt, that shows the whole of its buffer.
struct Editor<F: Fn(u32) -> Vec<InlayHint>> {
    cache: InlayHintCache,
    next_inlay_id: usize,
    visible: Vec<(Inlay, String)>,
    buffer_version: u32,
    requests: u32,
    server: F,
}

impl<F: Fn(u32) -> Vec<InlayHint>> Editor<F> {
    fn open(settings: InlayHintSettings, server: F) -> Self {
        let mut editor = Editor {
            cache: InlayHintCache::new(settings),
            next_inlay_id: 0,
            visible: Vec::new(),
            buffer_version: 1,
            requests: 0,
            server,
        };
        editor.refresh(InvalidationStrategy::Never);
        editor
    }

    fn edit(&mut self) {
        self.buffer_version += 1;
        self.refresh(InvalidationStrategy::OnConflict);
    }

    fn visible_inlays(&self) -> Vec<Inlay> {
        self.visible.iter().map(|(inlay, _)| *inlay).collect()
    }

    fn splice(&mut self, splice: InlaySplice) {
        self.visible.retain(|(inlay, _)| !splice.to_remove.contains(&inlay.id));
        for (position, id, hint) in splice.to_insert {
            self.visible.push((Inlay { id, position }, label(&hint)));
        }
        self.visible.sort_by_key(|(inlay, _)| inlay.position.text_anchor.offset);
    }

    fn update_settings(&mut self, settings: InlayHintSettings) {
        let flow = self.cache.update_settings(
            &multi_buffer(self.buffer_version),
            settings,
            self.visible_inlays(),
        );
        match flow {
            ControlFlow::Break(None) => {}
            ControlFlow::Break(Some(splice)) => self.splice(splice),
            ControlFlow::Continue(()) => self.refresh(InvalidationStrategy::Forced),
        }
    }

    fn refresh(&mut self, strategy: InvalidationStrategy) {
        let queried = HashMap::from([(EXCERPT, (BUFFER, 0..LENGTH))]);
        let request = match self.cache.refresh_inlay_hints(queried, strategy) {
            Some(request) => request,
            None => return,
        };
        let excerpts: Vec<VisibleExcerpt> = request
            .excerpts_to_query
            .into_iter()
            .map(|(excerpt_id, (buffer_id, visible_range))| VisibleExcerpt {
                excerpt_id,
                visible_range_start: anchor(visible_range.start),
                visible_range_end: anchor(visible_range.end),
                visible_range,
                buffer_id,
                buffer_version: Global { values: vec![self.buffer_version] },
                buffer_excerpts: vec![(EXCERPT, anchor(0)..anchor(LENGTH))],
            })
            .collect();
        let tasks =
            self.cache.spawn_new_update_tasks(&excerpts, request.invalidate, request.cache_version);
        for task in tasks {
            let (is_running_tx, is_running_rx) = smol::channel::bounded(1);
            self.cache.insert_update_task(task, is_running_rx, smol::spawn(async {}));
            self.run(task.query, task.follows_current, task.has_cached_hints);
            drop(is_running_tx);
        }
    }

    fn run(&mut self, query: ExcerptQuery, follows_current: bool, has_cached_hints: bool) {
        let ranges = query.hints_fetch_ranges(&snapshot(self.buffer_version));
        let mut run = UpdateRun::new(ranges, follows_current);
        loop {
            let next = run.next_ranges();
            if next.is_empty() {
                break;
            }
            let mut outcomes = Vec::new();
            for range in next {
                outcomes.push(self.fetch(query, range, has_cached_hints));
            }
            assert!(run.advance(&outcomes).is_empty());
        }
    }

    fn fetch(
        &mut self,
        query: ExcerptQuery,
        range: Range<TextAnchor>,
        has_cached_hints: bool,
    ) -> FetchOutcome {
        let hints = (self.server)(self.requests);
        self.requests += 1;
        let snapshot = snapshot(self.buffer_version);
        let cached = if has_cached_hints { self.cache.hints.get(&EXCERPT) } else { None };
        let update =
            calculate_hint_updates(query, range, hints, &snapshot, cached, &self.visible_inlays());
        match update {
            Some(update) => {
                assert!(update.changes_anything());
                let splice = self.cache.apply_hint_update(
                    update,
                    &snapshot,
                    &multi_buffer(self.buffer_version),
                    &mut self.next_inlay_id,
                );
                if let Some(splice) = splice {
                    self.splice(splice);
                }
                FetchOutcome::Updated
            }
            None => FetchOutcome::Unchanged,
        }
    }

    fn cached_hint_labels(&self) -> Vec<String> {
        let mut labels = Vec::new();
        for cached in self.cache.hints.values() {
            for (_, hint) in &cached.hints {
                labels.push(label(hint));
            }
        }
        labels
    }

    fn visible_hint_labels(&self) -> Vec<String> {
        self.visible.iter().map(|(_, label)| label.clone()).collect()
    }
}

#[test]
fn test_basic_cache_update_with_duplicate_hints() {
    let allowed_hint_kinds = kinds(&[None, Some(InlayHintKind::Type)]);
    let mut editor = Editor::open(settings(true, &allowed_hint_kinds), |call| {
        let mut new_hints = Vec::new();
        for _ in 0..2 {
            let mut i = call;
            loop {
                new_hints.push(hint(i as usize, &i.to_string(), None));
                if i == 0 {
                    break;
                }
                i -= 1;
            }
        }
        new_hints
    });
    let mut edits_made = 1;
    let expected_layers = vec!["0".to_string()];
    assert_eq!(
        expected_layers,
        editor.cached_hint_labels(),
        "Should get its first hints when opening the editor"
    );
    assert_eq!(expected_layers, editor.visible_hint_labels());
    assert_eq!(
        editor.cache.allowed_hint_kinds, allowed_hint_kinds,
        "Cache should use editor settings to get the allowed hint kinds"
    );
    assert_eq!(
        editor.cache.version, edits_made,
        "The editor update the cache version after every cache/view change"
    );

    editor.edit();
    edits_made += 1;
    let expected_layers = vec!["0".to_string(), "1".to_string()];
    assert_eq!(
        expected_layers,
        editor.cached_hint_labels(),
        "Should get new hints after an edit"
    );
    assert_eq!(expected_layers, editor.visible_hint_labels());
    assert_eq!(
        editor.cache.allowed_hint_kinds, allowed_hint_kinds,
        "Cache should use editor settings to get the allowed hint kinds"
    );
    assert_eq!(
        editor.cache.version, edits_made,
        "The editor update the cache version after every cache/view change"
    );

    editor.refresh(InvalidationStrategy::Forced);
    edits_made += 1;
    let expected_layers = vec!["0".to_string(), "1".to_string(), "2".to_string()];
    assert_eq!(
        expected_layers,
        editor.cached_hint_labels(),
        "Should get new hints after hint refresh/ request"
    );
    assert_eq!(expected_layers, editor.visible_hint_labels());
    assert_eq!(
        editor.cache.allowed_hint_kinds, allowed_hint_kinds,
        "Cache should use editor settings to get the allowed hint kinds"
    );
    assert_eq!(
        editor.cache.version, edits_made,
        "The editor update the cache version after every cache/view change"
    );
}

#[test]
fn test_hint_setting_changes() {
    let all_labels =
        vec!["type hint".to_string(), "parameter hint".to_string(), "other hint".to_string()];
    let allowed_hint_kinds = kinds(&[None, Some(InlayHintKind::Type)]);
    let mut editor = Editor::open(settings(true, &allowed_hint_kinds), |_| {
        vec![
            hint(1, "type hint", Some(InlayHintKind::Type)),
            hint(2, "parameter hint", Some(InlayHintKind::Parameter)),
            hint(3, "other hint", None),
        ]
    });
    let mut edits_made = 1;
    assert_eq!(editor.requests, 1, "Should query new hints once");
    assert_eq!(
        all_labels,
        editor.cached_hint_labels(),
        "Should get its first hints when opening the editor"
    );
    assert_eq!(
        vec!["type hint".to_string(), "other hint".to_string()],
        editor.visible_hint_labels()
    );
    assert_eq!(
        editor.cache.allowed_hint_kinds, allowed_hint_kinds,
        "Cache should use editor settings to get the allowed hint kinds"
    );
    assert_eq!(
        editor.cache.version, edits_made,
        "The editor update the cache version after every cache/view change"
    );

    editor.refresh(InvalidationStrategy::Forced);
    assert_eq!(editor.requests, 2, "Should load new hints twice");
    assert_eq!(
        all_labels,
        editor.cached_hint_labels(),
        "Cached hints should not change due to allowed hint kinds settings update"
    );
    assert_eq!(
        vec!["type hint".to_string(), "other hint".to_string()],
        editor.visible_hint_labels()
    );
    assert_eq!(editor.cache.allowed_hint_kinds, allowed_hint_kinds);
    assert_eq!(
        editor.cache.version, edits_made,
        "Should not update cache version due to new loaded hints being the same"
    );

    for (new_allowed_hint_kinds, expected_visible_hints) in [
        (kinds(&[None]), vec!["other hint".to_string()]),
        (kinds(&[Some(InlayHintKind::Type)]), vec!["type hint".to_string()]),
        (kinds(&[Some(InlayHintKind::Parameter)]), vec!["parameter hint".to_string()]),
        (
            kinds(&[None, Some(InlayHintKind::Type)]),
            vec!["type hint".to_string(), "other hint".to_string()],
        ),
        (
            kinds(&[None, Some(InlayHintKind::Parameter)]),
            vec!["parameter hint".to_string(), "other hint".to_string()],
        ),
        (
            kinds(&[Some(InlayHintKind::Type), Some(InlayHintKind::Parameter)]),
            vec!["type hint".to_string(), "parameter hint".to_string()],
        ),
        (
            kinds(&[None, Some(InlayHintKind::Type), Some(InlayHintKind::Parameter)]),
            all_labels.clone(),
        ),
    ] {
        edits_made += 1;
        editor.update_settings(settings(true, &new_allowed_hint_kinds));
        assert_eq!(
            editor.requests, 2,
            "Should not load new hints on allowed hint kinds change for hint kinds {new_allowed_hint_kinds:?}"
        );
        assert_eq!(
            all_labels,
            editor.cached_hint_labels(),
            "Should get its cached hints unchanged after the settings change for hint kinds {new_allowed_hint_kinds:?}"
        );
        assert_eq!(
            expected_visible_hints,
            editor.visible_hint_labels(),
            "Should get its visible hints filtered after the settings change for hint kinds {new_allowed_hint_kinds:?}"
        );
        assert_eq!(
            editor.cache.allowed_hint_kinds, new_allowed_hint_kinds,
            "Cache should use editor settings to get the allowed hint kinds for hint kinds {new_allowed_hint_kinds:?}"
        );
        assert_eq!(
            editor.cache.version, edits_made,
            "The editor should update the cache version after every cache/view change for hint kinds {new_allowed_hint_kinds:?} due to visible hints change"
        );
    }

    edits_made += 1;
    let another_allowed_hint_kinds = kinds(&[Some(InlayHintKind::Type)]);
    editor.update_settings(settings(false, &another_allowed_hint_kinds));
    assert_eq!(editor.requests, 2, "Should not load new hints when hints got disabled");
    assert!(
        editor.cached_hint_labels().is_empty(),
        "Should clear the cache when hints got disabled"
    );
    assert!(
        editor.visible_hint_labels().is_empty(),
        "Should clear visible hints when hints got disabled"
    );
    assert_eq!(
        editor.cache.allowed_hint_kinds, another_allowed_hint_kinds,
        "Should update its allowed hint kinds even when hints got disabled"
    );
    assert_eq!(
        editor.cache.version, edits_made,
        "The editor should update the cache version after hints got disabled"
    );

    editor.refresh(InvalidationStrategy::Forced);
    assert_eq!(editor.requests, 2, "Should not load new hints when they got disabled");
    assert!(editor.cached_hint_labels().is_empty());
    assert!(editor.visible_hint_labels().is_empty());
    assert_eq!(editor.cache.allowed_hint_kinds, another_allowed_hint_kinds);
    assert_eq!(
        editor.cache.version, edits_made,
        "The editor should not update the cache version after /refresh query without updates"
    );

    let final_allowed_hint_kinds = kinds(&[Some(InlayHintKind::Parameter)]);
    edits_made += 1;
    editor.update_settings(settings(true, &final_allowed_hint_kinds));
    assert_eq!(editor.requests, 3, "Should query for new hints when they got reenabled");
    assert_eq!(
        all_labels,
        editor.cached_hint_labels(),
        "Should get its cached hints fully repopulated after the hints got reenabled"
    );
    assert_eq!(
        vec!["parameter hint".to_string()],
        editor.visible_hint_labels(),
        "Should get its visible hints repopulated and filtered after the h"
    );
    assert_eq!(
        editor.cache.allowed_hint_kinds, final_allowed_hint_kinds,
        "Cache should update editor settings when hints got reenabled"
    );
    assert_eq!(
        editor.cache.version, edits_made,
        "Cache should update its version after hints got reenabled"
    );

    editor.refresh(InvalidationStrategy::Forced);
    assert_eq!(editor.requests, 4, "Should query for new hints again");
    assert_eq!(all_labels, editor.cached_hint_labels());
    assert_eq!(vec!["parameter hint".to_string()], editor.visible_hint_labels());
    assert_eq!(editor.cache.allowed_hint_kinds, final_allowed_hint_kinds);
    assert_eq!(editor.cache.version, edits_made);
}

#[test]
fn editor_gives_each_hint_an_id_of_its_own() {
    let mut editor = Editor::open(settings(true, &kinds(&[None])), |call| {
        (0..=call as usize).map(|i| hint(i, &i.to_string(), None)).collect()
    });
    editor.edit();
    editor.edit();
    let ids: Vec<InlayId> =
        editor.cache.hints[&EXCERPT].hints.iter().map(|(id, _)| *id).collect();
    assert_eq!(ids, vec![InlayId::Hint(0), InlayId::Hint(1), InlayId::Hint(2)]);
    assert_eq!(editor.next_inlay_id, 3);
}
