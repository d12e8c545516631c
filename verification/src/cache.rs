//! The cache of the hints of an editor.

use std::collections::HashMap;
use std::ops::{ControlFlow, Range};

use smol::channel::Receiver;
use vstd::prelude::*;

use crate::anchor::{Anchor, BufferSnapshot, ExcerptId, MultiBufferSnapshot};
use crate::hint::{
    HintKinds, HintView, Inlay, InlayHint, InlayHintKind, InlayHintSettings, InlayId,
};
use crate::maps::{keys_of, retain_excerpts};
use crate::order::{hint_views, is_stable_sort, sort_by_position};
use crate::query::{ExcerptDimensions, ExcerptQuery, InvalidationStrategy};
use crate::sequences::lemma_filter_step;
use crate::splice::{
    anchored, excerpt_views, insert_views, lemma_walks_agree, splice_along, splice_view,
    unless_empty, walk_excerpts, InlaySplice, KindsChange, SpliceView,
};
use crate::tasks::{
    decide, new_update_task, ExcerptStep, NewUpdateTask, SpawnedTask, TaskDecision, UpdateTask,
    VisibleExcerpt,
};
use crate::updates::{
    bare_views, contains_id, inlay_ids, CachedExcerptHints, ExcerptHintsUpdate, ExcerptHintsView,
    UpdateView,
};

verus! {

broadcast use vstd::std_specs::hash::group_hash_axioms;

/// The cached hints of an editor, and the tasks that keep them up to date.
pub struct InlayHintCache {
    /// The cached hints of each excerpt, also those of kinds that are not allowed.
    pub hints: HashMap<ExcerptId, CachedExcerptHints>,
    /// The kinds of hints that the editor shows.
    pub allowed_hint_kinds: HintKinds,
    /// Grows with every change of the cached hints or of the hints that the editor shows.
    pub version: usize,
    /// Whether the editor shows hints at all.
    pub enabled: bool,
    /// The task of each excerpt.
    pub update_tasks: HashMap<ExcerptId, UpdateTask>,
}

/// The mathematical value of an [`InlayHintCache`].
#[verifier::ext_equal]
pub struct CacheView {
    pub hints: Map<ExcerptId, ExcerptHintsView>,
    pub allowed_hint_kinds: Set<Option<InlayHintKind>>,
    pub version: int,
    pub enabled: bool,
    pub update_tasks: Map<ExcerptId, UpdateTask>,
}

impl View for InlayHintCache {
    type V = CacheView;

    open spec fn view(&self) -> CacheView {
        CacheView {
            hints: excerpt_views(self.hints@),
            allowed_hint_kinds: self.allowed_hint_kinds@,
            version: self.version as int,
            enabled: self.enabled,
            update_tasks: self.update_tasks@,
        }
    }
}

/// What has to be done after a change of the settings.
pub enum SettingsFlow {
    /// The hints have to be fetched.
    Continue,
    /// The editor has to make this change, if any.
    Break(Option<SpliceView>),
}

/// The mathematical value of the answer to a change of the settings.
pub open spec fn flow_view(flow: ControlFlow<Option<InlaySplice>>) -> SettingsFlow {
    match flow {
        ControlFlow::Continue(_) => SettingsFlow::Continue,
        ControlFlow::Break(splice) => SettingsFlow::Break(splice_view(splice)),
    }
}

/// The hints that are to be fetched for a refresh.
#[derive(Debug)]
pub struct RefreshRequest {
    /// The excerpts to query: the buffer of each, and the part of it that is shown.
    pub excerpts_to_query: HashMap<ExcerptId, (u64, Range<usize>)>,
    pub invalidate: InvalidationStrategy,
    /// The version of the cache that the request was made at.
    pub cache_version: usize,
}

/// Holds of the hints that are not among the removed ones.
pub open spec fn not_removed(removed: Seq<InlayId>) -> spec_fn((InlayId, HintView)) -> bool {
    |hint: (InlayId, HintView)| !removed.contains(hint.0)
}

/// Hints with the ids that follow on from `first_id`.
pub open spec fn numbered(hints: Seq<HintView>, first_id: usize) -> Seq<(InlayId, HintView)> {
    Seq::new(hints.len(), |i: int| (InlayId::Hint((first_id + i) as usize), hints[i]))
}

/// Holds of the hints of these kinds.
pub open spec fn of_kinds(kinds: Set<Option<InlayHintKind>>) -> spec_fn(
    (InlayId, HintView),
) -> bool {
    |hint: (InlayId, HintView)| kinds.contains(hint.1.kind)
}

impl CacheView {
    /// The cached hints of an excerpt, none where nothing is cached for it.
    pub open spec fn hints_of(self, excerpt_id: ExcerptId) -> Seq<(InlayId, HintView)> {
        if self.hints.contains_key(excerpt_id) {
            self.hints[excerpt_id].hints
        } else {
            Seq::empty()
        }
    }

    /// A change of the allowed kinds to `new_kinds`.
    pub open spec fn change_of_kinds(
        self,
        multi_buffer: &MultiBufferSnapshot,
        visible_hints: Seq<Inlay>,
        new_kinds: Set<Option<InlayHintKind>>,
    ) -> KindsChange {
        KindsChange {
            hints: self.hints,
            multi_buffer: *multi_buffer,
            visible_hints,
            old_kinds: self.allowed_hint_kinds,
            new_kinds,
        }
    }

    /// The cache without hints and tasks, at its next version.
    pub open spec fn cleared(self) -> CacheView {
        CacheView {
            hints: Map::empty(),
            update_tasks: Map::empty(),
            version: self.version + 1,
            ..self
        }
    }

    /// The cache with another choice of hints.
    pub open spec fn with_settings(
        self,
        enabled: bool,
        kinds: Set<Option<InlayHintKind>>,
    ) -> CacheView {
        CacheView { enabled, allowed_hint_kinds: kinds, ..self }
    }

    /// The cache after the allowed kinds have changed and the editor shows other hints.
    pub open spec fn with_other_kinds(self, kinds: Set<Option<InlayHintKind>>) -> CacheView {
        CacheView {
            allowed_hint_kinds: kinds,
            update_tasks: Map::empty(),
            version: self.version + 1,
            ..self
        }
    }

    /// Whether new settings lead to the cache `after` and to `flow`.
    ///
    /// Where hints are shown before and after and no hint appears or disappears, the kinds
    /// that were allowed stay.
    pub open spec fn settings_change_to(
        self,
        after: CacheView,
        flow: SettingsFlow,
        multi_buffer: &MultiBufferSnapshot,
        settings: InlayHintSettings,
        visible_hints: Seq<Inlay>,
    ) -> bool {
        let kinds = settings.spec_enabled_inlay_hint_kinds();
        let change = self.change_of_kinds(multi_buffer, visible_hints, kinds);
        match (self.enabled, settings.enabled) {
            (false, false) => {
                &&& flow == SettingsFlow::Break(None)
                &&& after == self.with_settings(false, kinds)
            },
            (false, true) => {
                &&& flow == SettingsFlow::Continue
                &&& after == self.with_settings(true, kinds)
            },
            (true, false) => if self.hints == Map::<ExcerptId, ExcerptHintsView>::empty() {
                &&& flow == SettingsFlow::Break(None)
                &&& after == self.with_settings(false, kinds)
            } else {
                &&& flow == SettingsFlow::Break(
                    Some(
                        SpliceView {
                            to_remove: inlay_ids(visible_hints),
                            to_insert: Seq::empty(),
                        },
                    ),
                )
                &&& after == self.with_settings(false, kinds).cleared()
            },
            (true, true) => if kinds == self.allowed_hint_kinds {
                &&& flow == SettingsFlow::Break(None)
                &&& after == self
            } else {
                &&& exists|walk: Seq<ExcerptId>| #[trigger]
                    change.is_walk(walk) && flow == SettingsFlow::Break(
                        unless_empty(change.splice(walk)),
                    )
                &&& after == (if flow == SettingsFlow::Break(None) {
                    self
                } else {
                    self.with_other_kinds(kinds)
                })
            },
        }
    }

    /// Whether a version is left for the cache that new settings lead to.
    pub open spec fn has_version_for_settings(
        self,
        multi_buffer: &MultiBufferSnapshot,
        settings: InlayHintSettings,
        visible_hints: Seq<Inlay>,
    ) -> bool {
        forall|after: CacheView, flow: SettingsFlow| #[trigger]
            self.settings_change_to(after, flow, multi_buffer, settings, visible_hints)
                ==> after.version <= usize::MAX
    }

    /// Whether hints are asked for an excerpt that is to be queried: it has no task, or one
    /// from before the present version, or one from this version that is to be invalidated.
    pub open spec fn wants(self, excerpt_id: ExcerptId, invalidates: bool) -> bool {
        self.update_tasks.contains_key(excerpt_id) ==> {
            let task_version = self.update_tasks[excerpt_id].current.1.version;
            task_version < self.version || (task_version == self.version && invalidates)
        }
    }

    /// The cache after a refresh of the excerpts `queried`: one that invalidates ends the tasks
    /// of all others.
    pub open spec fn refreshed(self, queried: Set<ExcerptId>, invalidates: bool) -> CacheView {
        if self.enabled && invalidates {
            CacheView { update_tasks: self.update_tasks.restrict(queried), ..self }
        } else {
            self
        }
    }

    /// The cache with a task that has been started: after the current one of its excerpt, or
    /// in its place.
    pub open spec fn with_task(self, new_task: NewUpdateTask, spawned_task: SpawnedTask)
        -> CacheView {
        let excerpt_id = new_task.query.excerpt_id;
        let task = if new_task.follows_current {
            UpdateTask {
                pending_refresh: Some(spawned_task),
                ..self.update_tasks[excerpt_id]
            }
        } else {
            UpdateTask {
                current: (new_task.query.invalidate, spawned_task),
                pending_refresh: None,
            }
        };
        CacheView { update_tasks: self.update_tasks.insert(excerpt_id, task), ..self }
    }

    /// Whether hints that were asked for later are cached for the excerpt of the update.
    pub open spec fn is_outdated(self, update: UpdateView) -> bool {
        self.hints.contains_key(update.excerpt_id) && self.hints[update.excerpt_id].version
            > update.cache_version
    }

    /// The hints of the excerpt after the update, before they are put in order: those that it
    /// does not remove, and those that it adds, with the ids from `first_id` on.
    pub open spec fn updated_hints(self, update: UpdateView, first_id: usize) -> Seq<
        (InlayId, HintView),
    > {
        self.hints_of(update.excerpt_id).filter(not_removed(update.remove_from_cache)) + numbered(
            update.add_to_cache,
            first_id,
        )
    }

    /// What the editor has to change for the update: it removes what the update says, and
    /// inserts the added hints of the allowed kinds.
    pub open spec fn update_splice(
        self,
        update: UpdateView,
        first_id: usize,
        multi_buffer: &MultiBufferSnapshot,
    ) -> SpliceView {
        SpliceView {
            to_remove: update.remove_from_visible,
            to_insert: anchored(
                numbered(update.add_to_cache, first_id).filter(of_kinds(self.allowed_hint_kinds)),
                update.excerpt_id,
                multi_buffer,
            ),
        }
    }

    /// Whether `after` is the cache after an update that is not outdated: the hints of its
    /// excerpt are updated and in the order of their positions, and nothing else changes but
    /// the version.
    pub open spec fn updates_to(
        self,
        after: CacheView,
        update: UpdateView,
        first_id: usize,
        buffer_snapshot: &BufferSnapshot,
    ) -> bool {
        &&& after.hints.contains_key(update.excerpt_id)
        &&& after == (CacheView {
            hints: self.hints.insert(
                update.excerpt_id,
                ExcerptHintsView {
                    version: update.cache_version,
                    buffer_version: buffer_snapshot.version@,
                    hints: after.hints[update.excerpt_id].hints,
                },
            ),
            version: self.version + 1,
            ..self
        })
        &&& is_stable_sort(
            self.updated_hints(update, first_id),
            after.hints[update.excerpt_id].hints,
            buffer_snapshot,
        )
    }

    /// What the excerpt asks for at this state of the cache.
    pub open spec fn step(
        self,
        excerpt: VisibleExcerpt,
        running: bool,
        strategy: InvalidationStrategy,
        cache_version: usize,
    ) -> ExcerptStep {
        excerpt.spec_step(
            self.hints.get(excerpt.excerpt_id),
            self.update_tasks.get(excerpt.excerpt_id),
            running,
            strategy,
            cache_version,
        )
    }

    /// Whether the tasks of the excerpts, asked whether they run, can have answered `running`.
    pub open spec fn told(self, excerpts: Seq<VisibleExcerpt>, running: Seq<bool>) -> bool {
        forall|k: int|
            #![trigger running[k]]
            0 <= k < running.len() && self.update_tasks.contains_key(excerpts[k].excerpt_id)
                ==> call_ensures(
                UpdateTask::is_running,
                (&self.update_tasks[excerpts[k].excerpt_id],),
                running[k],
            )
    }

    /// The tasks that the excerpts from place `from` on ask for.
    pub open spec fn new_tasks_from(
        self,
        excerpts: Seq<VisibleExcerpt>,
        running: Seq<bool>,
        strategy: InvalidationStrategy,
        cache_version: usize,
        from: int,
    ) -> Seq<NewUpdateTask>
        decreases excerpts.len() - from,
    {
        if from >= excerpts.len() {
            Seq::empty()
        } else {
            let rest = self.new_tasks_from(excerpts, running, strategy, cache_version, from + 1);
            match self.step(excerpts[from], running[from], strategy, cache_version) {
                ExcerptStep::Skip => rest,
                ExcerptStep::Stop => Seq::empty(),
                ExcerptStep::Start(task) => seq![task] + rest,
            }
        }
    }
}

impl InlayHintCache {
    /// A cache without hints.
    pub fn new(inlay_hint_settings: InlayHintSettings) -> (cache: Self)
        ensures
            cache@ == (CacheView {
                hints: Map::empty(),
                allowed_hint_kinds: inlay_hint_settings.spec_enabled_inlay_hint_kinds(),
                version: 0,
                enabled: inlay_hint_settings.enabled,
                update_tasks: Map::empty(),
            }),
    {
        let cache = InlayHintCache {
            allowed_hint_kinds: inlay_hint_settings.enabled_inlay_hint_kinds(),
            enabled: inlay_hint_settings.enabled,
            hints: HashMap::new(),
            update_tasks: HashMap::new(),
            version: 0,
        };
        assert(cache@.hints =~= Map::empty());
        cache
    }

    fn clear(&mut self)
        requires
            old(self).version < usize::MAX,
        ensures
            final(self)@ == old(self)@.cleared(),
    {
        self.version = self.version + 1;
        self.update_tasks.clear();
        self.hints.clear();
        assert(self@.hints =~= Map::empty());
    }

    /// Takes over new settings. `Continue` tells that the hints have to be fetched, and
    /// `Break` that they have not, with what the editor has to change.
    ///
    /// Where no hint appears or disappears, the kinds that were allowed stay.
    pub fn update_settings(
        &mut self,
        multi_buffer: &MultiBufferSnapshot,
        new_hint_settings: InlayHintSettings,
        visible_hints: Vec<Inlay>,
    ) -> (flow: ControlFlow<Option<InlaySplice>>)
        requires
            old(self)@.has_version_for_settings(
                multi_buffer,
                new_hint_settings,
                visible_hints@,
            ),
        ensures
            old(self)@.settings_change_to(
                final(self)@,
                flow_view(flow),
                multi_buffer,
                new_hint_settings,
                visible_hints@,
            ),
    {
        let new_allowed_hint_kinds = new_hint_settings.enabled_inlay_hint_kinds();
        let ghost before = self@;
        match (self.enabled, new_hint_settings.enabled) {
            (false, false) => {
                self.allowed_hint_kinds = new_allowed_hint_kinds;
                ControlFlow::Break(None)
            },
            (true, true) => {
                if new_allowed_hint_kinds.same_as(&self.allowed_hint_kinds) {
                    ControlFlow::Break(None)
                } else {
                    let new_splice = self.new_allowed_hint_kinds_splice(
                        multi_buffer,
                        &visible_hints,
                        &new_allowed_hint_kinds,
                    );
                    if new_splice.is_some() {
                        assert(before.settings_change_to(
                            before.with_other_kinds(new_allowed_hint_kinds@),
                            SettingsFlow::Break(splice_view(new_splice)),
                            multi_buffer,
                            new_hint_settings,
                            visible_hints@,
                        ));
                        self.version = self.version + 1;
                        self.update_tasks.clear();
                        self.allowed_hint_kinds = new_allowed_hint_kinds;
                    }
                    ControlFlow::Break(new_splice)
                }
            },
            (true, false) => {
                self.enabled = new_hint_settings.enabled;
                self.allowed_hint_kinds = new_allowed_hint_kinds;
                if self.hints.is_empty() {
                    proof {
                        assert(self.hints@.dom() =~= Set::empty());
                        assert(before.hints =~= Map::empty());
                    }
                    ControlFlow::Break(None)
                } else {
                    proof {
                        assert(self.hints@.dom().len() > 0);
                        let id = self.hints@.dom().choose();
                        assert(before.hints.contains_key(id));
                        assert(before.settings_change_to(
                            before.with_settings(false, new_allowed_hint_kinds@).cleared(),
                            SettingsFlow::Break(
                                Some(
                                    SpliceView {
                                        to_remove: inlay_ids(visible_hints@),
                                        to_insert: Seq::empty(),
                                    },
                                ),
                            ),
                            multi_buffer,
                            new_hint_settings,
                            visible_hints@,
                        ));
                    }
                    self.clear();
                    let mut to_remove: Vec<InlayId> = Vec::new();
                    let mut i: usize = 0;
                    while i < visible_hints.len()
                        invariant
                            i <= visible_hints.len(),
                            to_remove@ =~= inlay_ids(visible_hints@.take(i as int)),
                        decreases visible_hints.len() - i,
                    {
                        to_remove.push(visible_hints[i].id);
                        i = i + 1;
                    }
                    assert(visible_hints@.take(visible_hints@.len() as int) =~= visible_hints@);
                    let splice = InlaySplice { to_remove, to_insert: Vec::new() };
                    assert(splice@.to_insert =~= Seq::empty());
                    ControlFlow::Break(Some(splice))
                }
            },
            (false, true) => {
                self.enabled = new_hint_settings.enabled;
                self.allowed_hint_kinds = new_allowed_hint_kinds;
                ControlFlow::Continue(())
            },
        }
    }

    /// Whether a version is left for the cache that new settings lead to.
    pub fn has_version_for_settings(
        &self,
        multi_buffer: &MultiBufferSnapshot,
        new_hint_settings: InlayHintSettings,
        visible_hints: &[Inlay],
    ) -> (has_version: bool)
        ensures
            has_version == self@.has_version_for_settings(
                multi_buffer,
                new_hint_settings,
                visible_hints@,
            ),
    {
        if self.version < usize::MAX {
            return true;
        }
        let ghost kinds = new_hint_settings.spec_enabled_inlay_hint_kinds();
        let ghost change = self@.change_of_kinds(multi_buffer, visible_hints@, kinds);
        match (self.enabled, new_hint_settings.enabled) {
            (true, true) => {
                let new_kinds = new_hint_settings.enabled_inlay_hint_kinds();
                let splice = self.new_allowed_hint_kinds_splice(
                    multi_buffer,
                    visible_hints,
                    &new_kinds,
                );
                proof {
                    if kinds != self@.allowed_hint_kinds {
                        let walk = choose|walk: Seq<ExcerptId>| #[trigger]
                            change.is_walk(walk) && splice_view(splice) == unless_empty(
                                change.splice(walk),
                            );
                        if splice is None {
                            assert forall|other: Seq<ExcerptId>| #[trigger]
                                change.is_walk(other) implies change.splice(other).is_empty() by {
                                lemma_walks_agree(change, walk, other);
                            }
                        } else {
                            assert(self@.settings_change_to(
                                self@.with_other_kinds(kinds),
                                SettingsFlow::Break(splice_view(splice)),
                                multi_buffer,
                                new_hint_settings,
                                visible_hints@,
                            ));
                        }
                    }
                }
                splice.is_none()
            },
            (true, false) => {
                let is_empty = self.hints.is_empty();
                proof {
                    if is_empty {
                        assert(self.hints@.dom() =~= Set::empty());
                        assert(self@.hints =~= Map::empty());
                    } else {
                        assert(self.hints@.dom().len() > 0);
                        let id = self.hints@.dom().choose();
                        assert(self@.hints.contains_key(id));
                        assert(self@.settings_change_to(
                            self@.with_settings(false, kinds).cleared(),
                            SettingsFlow::Break(
                                Some(
                                    SpliceView {
                                        to_remove: inlay_ids(visible_hints@),
                                        to_insert: Seq::empty(),
                                    },
                                ),
                            ),
                            multi_buffer,
                            new_hint_settings,
                            visible_hints@,
                        ));
                    }
                }
                is_empty
            },
            _ => true,
        }
    }

    /// What the editor has to change when `new_kinds` of hints are allowed.
    pub fn new_allowed_hint_kinds_splice(
        &self,
        multi_buffer: &MultiBufferSnapshot,
        visible_hints: &[Inlay],
        new_kinds: &HintKinds,
    ) -> (splice: Option<InlaySplice>)
        ensures
            new_kinds@ == self@.allowed_hint_kinds ==> splice is None,
            new_kinds@ != self@.allowed_hint_kinds ==> exists|walk: Seq<ExcerptId>| #[trigger]
                self@.change_of_kinds(multi_buffer, visible_hints@, new_kinds@).is_walk(walk)
                    && splice_view(splice) == unless_empty(
                    self@.change_of_kinds(multi_buffer, visible_hints@, new_kinds@).splice(walk),
                ),
    {
        if new_kinds.same_as(&self.allowed_hint_kinds) {
            return None;
        }
        let walk = walk_excerpts(&self.hints, visible_hints);
        assert(self@.change_of_kinds(multi_buffer, visible_hints@, new_kinds@).is_walk(walk@));
        splice_along(
            &self.hints,
            multi_buffer,
            visible_hints,
            &self.allowed_hint_kinds,
            new_kinds,
            &walk,
        )
    }
}

impl InlayHintCache {
    /// Decides for which excerpts hints are to be fetched, none where no hints are shown.
    ///
    /// A refresh that invalidates ends the tasks of the excerpts that are not to be queried.
    pub fn refresh_inlay_hints(
        &mut self,
        excerpts_to_query: HashMap<ExcerptId, (u64, Range<usize>)>,
        invalidate: InvalidationStrategy,
    ) -> (request: Option<RefreshRequest>)
        ensures
            request is Some <==> old(self).enabled,
            request matches Some(request) ==> {
                &&& request.excerpts_to_query@ == excerpts_to_query@.restrict(
                    Set::new(
                        |id: ExcerptId| old(self)@.wants(id, invalidate.spec_invalidates()),
                    ),
                )
                &&& request.invalidate == invalidate
                &&& request.cache_version == old(self).version
            },
            final(self)@ == old(self)@.refreshed(
                excerpts_to_query@.dom(),
                invalidate.spec_invalidates(),
            ),
    {
        if !self.enabled {
            return None;
        }
        let ghost before = self@;
        let ghost invalidates = invalidate.spec_invalidates();
        let mut excerpts_to_query = excerpts_to_query;
        let ghost queried = excerpts_to_query@;
        let ids = keys_of(&excerpts_to_query);
        assert(ids@.to_set() =~= queried.dom()) by {
            assert forall|id: ExcerptId| ids@.to_set().contains(id) <==> queried.dom().contains(
                id,
            ) by {
                assert(ids@.contains(id) <==> queried.contains_key(id));
            }
        }
        let invalidate_cache = invalidate.invalidates();
        if invalidate_cache {
            retain_excerpts(&mut self.update_tasks, &ids);
        }
        let cache_version: usize = self.version;
        let mut wanted: Vec<ExcerptId> = Vec::new();
        let mut i: usize = 0;
        while i < ids.len()
            invariant
                i <= ids.len(),
                cache_version == before.version,
                invalidate_cache == invalidates,
                ids@.to_set() == queried.dom(),
                self.update_tasks@ == (if invalidates {
                    before.update_tasks.restrict(queried.dom())
                } else {
                    before.update_tasks
                }),
                forall|id: ExcerptId| #[trigger]
                    wanted@.contains(id) <==> before.wants(id, invalidates) && exists|k: int|
                        0 <= k < i && ids@[k] == id,
            decreases ids.len() - i,
        {
            let id: ExcerptId = ids[i];
            let ghost so_far = wanted@;
            assert(queried.contains_key(id)) by {
                assert(ids@.contains(id));
                assert(ids@.to_set().contains(id));
            }
            let is_wanted = match self.update_tasks.get(&id) {
                Some(task) => {
                    let task_version: usize = task.cache_version();
                    task_version < cache_version || (task_version == cache_version
                        && invalidate_cache)
                },
                None => true,
            };
            assert(is_wanted == before.wants(id, invalidates));
            if is_wanted {
                wanted.push(id);
            }
            assert forall|other: ExcerptId| #[trigger]
                wanted@.contains(other) <==> before.wants(other, invalidates) && exists|k: int|
                    0 <= k < i + 1 && ids@[k] == other by {
                assert(so_far.contains(other) <==> before.wants(other, invalidates) && exists|
                    k: int,
                |
                    0 <= k < i && ids@[k] == other);
                assert(wanted@.contains(other) <==> so_far.contains(other) || (is_wanted && other
                    == id)) by {
                    if so_far.contains(other) {
                        let k = choose|k: int| 0 <= k < so_far.len() && so_far[k] == other;
                        assert(wanted@[k] == other);
                    }
                    if is_wanted {
                        assert(wanted@[so_far.len() as int] == id);
                    }
                }
                if other == id {
                    assert(ids@[i as int] == other);
                }
            }
            i = i + 1;
        }
        retain_excerpts(&mut excerpts_to_query, &wanted);
        proof {
            let kept = Set::new(|id: ExcerptId| before.wants(id, invalidates));
            assert forall|id: ExcerptId| queried.contains_key(id) implies (wanted@.to_set().contains(
                id,
            ) <==> kept.contains(id)) by {
                assert(ids@.to_set().contains(id));
                assert(wanted@.contains(id) <==> before.wants(id, invalidates));
            }
            assert(excerpts_to_query@ =~= queried.restrict(kept));
        }
        Some(RefreshRequest { excerpts_to_query, invalidate, cache_version })
    }

    /// Decides which tasks to start for the excerpts, given which of their tasks run.
    pub fn plan_update_tasks(
        &self,
        excerpts: &Vec<VisibleExcerpt>,
        running: &Vec<bool>,
        invalidation_strategy: InvalidationStrategy,
        update_cache_version: usize,
    ) -> (tasks: Vec<NewUpdateTask>)
        requires
            running.len() == excerpts.len(),
        ensures
            tasks@ == self@.new_tasks_from(
                excerpts@,
                running@,
                invalidation_strategy,
                update_cache_version,
                0,
            ),
    {
        let mut tasks: Vec<NewUpdateTask> = Vec::new();
        let mut i: usize = 0;
        while i < excerpts.len()
            invariant
                i <= excerpts.len(),
                running.len() == excerpts.len(),
                self@.new_tasks_from(
                    excerpts@,
                    running@,
                    invalidation_strategy,
                    update_cache_version,
                    0,
                ) =~= tasks@ + self@.new_tasks_from(
                    excerpts@,
                    running@,
                    invalidation_strategy,
                    update_cache_version,
                    i as int,
                ),
            decreases excerpts.len() - i,
        {
            match self.plan_update_task(
                &excerpts[i],
                running[i],
                invalidation_strategy,
                update_cache_version,
            ) {
                ExcerptStep::Skip => {},
                ExcerptStep::Stop => {
                    return tasks;
                },
                ExcerptStep::Start(task) => {
                    tasks.push(task);
                },
            }
            i = i + 1;
        }
        tasks
    }

    /// Decides whether to start a task for the excerpt, given whether its task runs.
    pub fn plan_update_task(
        &self,
        excerpt: &VisibleExcerpt,
        running: bool,
        invalidation_strategy: InvalidationStrategy,
        update_cache_version: usize,
    ) -> (step: ExcerptStep)
        ensures
            step == self@.step(*excerpt, running, invalidation_strategy, update_cache_version),
    {
        if !(excerpt.visible_range.start < excerpt.visible_range.end) {
            return ExcerptStep::Skip;
        }
        let cached_excerpt_hints = self.hints.get(&excerpt.excerpt_id);
        let cache_is_empty = match cached_excerpt_hints {
            Some(cached) => {
                if cached.version > update_cache_version || cached.buffer_version.changed_since(
                    &excerpt.buffer_version,
                ) {
                    return ExcerptStep::Stop;
                }
                if !excerpt.buffer_version.changed_since(&cached.buffer_version) && !matches!(
                    invalidation_strategy,
                    InvalidationStrategy::Forced
                ) {
                    return ExcerptStep::Stop;
                }
                cached.hints.len() == 0
            },
            None => true,
        };
        match excerpt.full_range() {
            Some(range) => {
                let query = ExcerptQuery {
                    buffer_id: excerpt.buffer_id,
                    excerpt_id: excerpt.excerpt_id,
                    dimensions: ExcerptDimensions {
                        excerpt_range_start: range.start,
                        excerpt_range_end: range.end,
                        excerpt_visible_range_start: excerpt.visible_range_start,
                        excerpt_visible_range_end: excerpt.visible_range_end,
                    },
                    cache_version: update_cache_version,
                    invalidate: invalidation_strategy,
                };
                let decision = decide(
                    self.update_tasks.get(&excerpt.excerpt_id),
                    running,
                    invalidation_strategy,
                    cache_is_empty,
                );
                if decision == TaskDecision::Keep {
                    ExcerptStep::Skip
                } else {
                    ExcerptStep::Start(
                        NewUpdateTask {
                            query,
                            follows_current: decision == TaskDecision::Follow,
                            has_cached_hints: cached_excerpt_hints.is_some(),
                        },
                    )
                }
            },
            None => ExcerptStep::Skip,
        }
    }

    /// Decides which tasks to start for the excerpts, as their tasks tell whether they run.
    pub fn spawn_new_update_tasks(
        &self,
        excerpts: &Vec<VisibleExcerpt>,
        invalidation_strategy: InvalidationStrategy,
        update_cache_version: usize,
    ) -> (tasks: Vec<NewUpdateTask>)
        ensures
            exists|running: Seq<bool>|
                running.len() == excerpts@.len() && self@.told(excerpts@, running) && tasks@
                    == #[trigger] self@.new_tasks_from(
                    excerpts@,
                    running,
                    invalidation_strategy,
                    update_cache_version,
                    0,
                ),
    {
        let mut running: Vec<bool> = Vec::new();
        let mut i: usize = 0;
        while i < excerpts.len()
            invariant
                i <= excerpts.len(),
                running.len() == i,
                self@.told(excerpts@, running@),
            decreases excerpts.len() - i,
        {
            let runs = match self.update_tasks.get(&excerpts[i].excerpt_id) {
                Some(task) => task.is_running(),
                None => false,
            };
            running.push(runs);
            i = i + 1;
        }
        self.plan_update_tasks(excerpts, &running, invalidation_strategy, update_cache_version)
    }

    /// The channel that closes when the current task of the excerpt ends.
    pub fn current_task_channel(&self, excerpt_id: ExcerptId) -> (channel: Option<&Receiver<()>>)
        ensures
            channel == (if self@.update_tasks.contains_key(excerpt_id) {
                Some(&self@.update_tasks[excerpt_id].current.1.is_running_rx)
            } else {
                None
            }),
    {
        match self.update_tasks.get(&excerpt_id) {
            Some(task) => Some(&task.current.1.is_running_rx),
            None => None,
        }
    }

    /// Notes a task that has been started, with the channel that closes when it ends: after
    /// the current one of its excerpt, or in its place.
    pub fn insert_update_task(
        &mut self,
        new_task: NewUpdateTask,
        is_running_rx: Receiver<()>,
        task: smol::Task<(), ()>,
    )
        requires
            new_task.follows_current ==> old(self)@.update_tasks.contains_key(
                new_task.query.excerpt_id,
            ),
        ensures
            final(self)@ == old(self)@.with_task(
                new_task,
                SpawnedTask { version: new_task.query.cache_version, is_running_rx, task },
            ),
    {
        let excerpt_id: ExcerptId = new_task.query.excerpt_id;
        let spawned_task = new_update_task(&new_task.query, is_running_rx, task);
        if new_task.follows_current {
            match self.update_tasks.remove(&excerpt_id) {
                Some(current) => {
                    let mut task = current;
                    task.pending_refresh = Some(spawned_task);
                    self.update_tasks.insert(excerpt_id, task);
                },
                None => {},
            }
        } else {
            self.update_tasks.insert(
                excerpt_id,
                UpdateTask::new(new_task.query.invalidate, spawned_task),
            );
        }
        assert(self@.update_tasks =~= old(self)@.update_tasks.insert(
            excerpt_id,
            self@.update_tasks[excerpt_id],
        ));
    }
}

/// The hints that are not among the removed ones.
fn keep_hints(hints: Vec<(InlayId, InlayHint)>, removed: &Vec<InlayId>) -> (kept: Vec<
    (InlayId, InlayHint),
>)
    ensures
        hint_views(kept@) == hint_views(hints@).filter(not_removed(removed@)),
{
    let ghost views = hint_views(hints@);
    let ghost keep = not_removed(removed@);
    let mut kept: Vec<(InlayId, InlayHint)> = Vec::new();
    proof {
        reveal(Seq::filter);
        assert(hint_views(kept@) =~= views.take(0).filter(keep));
    }
    for hint in it: hints
        invariant
            views == hint_views(it.seq()),
            keep == not_removed(removed@),
            hint_views(kept@) == views.take(it.index() as int).filter(keep),
    {
        let ghost so_far = kept@;
        let ghost view = (hint.0, hint.1@);
        assert(views[it.index() as int] == view);
        if !contains_id(removed, hint.0) {
            kept.push(hint);
            assert(hint_views(kept@) =~= hint_views(so_far).push(view));
        }
        proof {
            lemma_filter_step(views, keep, it.index() as int);
        }
    }
    assert(views.take(views.len() as int) =~= views);
    kept
}

/// Appends `added` to `hints` with the ids from `next_inlay_id` on, and returns those of the
/// allowed kinds at their positions in the excerpt.
fn add_hints(
    hints: &mut Vec<(InlayId, InlayHint)>,
    added: Vec<InlayHint>,
    excerpt_id: ExcerptId,
    multi_buffer: &MultiBufferSnapshot,
    allowed_hint_kinds: &HintKinds,
    next_inlay_id: &mut usize,
) -> (to_insert: Vec<(Anchor, InlayId, InlayHint)>)
    requires
        *old(next_inlay_id) + added.len() <= usize::MAX,
    ensures
        *final(next_inlay_id) == *old(next_inlay_id) + added.len(),
        hint_views(final(hints)@) == hint_views(old(hints)@) + numbered(
            bare_views(added@),
            *old(next_inlay_id),
        ),
        insert_views(to_insert@) == anchored(
            numbered(bare_views(added@), *old(next_inlay_id)).filter(of_kinds(allowed_hint_kinds@)),
            excerpt_id,
            multi_buffer,
        ),
{
    let ghost first_id = *next_inlay_id;
    let ghost views = bare_views(added@);
    let ghost all = numbered(views, first_id);
    let ghost keep = of_kinds(allowed_hint_kinds@);
    let ghost before = hint_views(hints@);
    let mut to_insert: Vec<(Anchor, InlayId, InlayHint)> = Vec::new();
    proof {
        reveal(Seq::filter);
        assert(hint_views(hints@) =~= before + all.take(0));
        assert(insert_views(to_insert@) =~= anchored(
            all.take(0).filter(keep),
            excerpt_id,
            multi_buffer,
        ));
    }
    for hint in it: added
        invariant
            views == bare_views(it.seq()),
            all == numbered(views, first_id),
            keep == of_kinds(allowed_hint_kinds@),
            first_id + views.len() <= usize::MAX,
            *next_inlay_id == first_id + it.index(),
            hint_views(hints@) == before + all.take(it.index() as int),
            insert_views(to_insert@) == anchored(
                all.take(it.index() as int).filter(keep),
                excerpt_id,
                multi_buffer,
            ),
    {
        let ghost index = it.index() as int;
        let ghost view = all[index];
        let ghost hints_before = hints@;
        let ghost insert_before = to_insert@;
        let id = InlayId::Hint(*next_inlay_id);
        *next_inlay_id = *next_inlay_id + 1;
        assert(view == (id, hint@));
        let anchor = multi_buffer.anchor_in_excerpt(excerpt_id, hint.position);
        if allowed_hint_kinds.contains(hint.kind) {
            to_insert.push((anchor, id, hint.clone()));
        }
        proof {
            lemma_filter_step(all, keep, index);
            let kept = all.take(index).filter(keep);
            if keep(view) {
                assert(insert_views(to_insert@) =~= insert_views(insert_before).push(
                    (anchor, view.0, view.1),
                ));
                assert(anchored(kept.push(view), excerpt_id, multi_buffer) =~= anchored(
                    kept,
                    excerpt_id,
                    multi_buffer,
                ).push((anchor, view.0, view.1)));
            }
        }
        hints.push((id, hint));
        proof {
            assert(hint_views(hints@) =~= hint_views(hints_before).push(view));
            assert(all.take(index + 1) =~= all.take(index).push(view));
            assert(hint_views(hints@) =~= before + all.take(index + 1));
        }
    }
    assert(all.take(all.len() as int) =~= all);
    to_insert
}

impl InlayHintCache {
    /// Takes an update over into the cache, unless hints that were asked for later are cached
    /// already. The added hints get the ids from `next_inlay_id` on.
    ///
    /// Returns what the editor has to change, if anything.
    pub fn apply_hint_update(
        &mut self,
        new_update: ExcerptHintsUpdate,
        buffer_snapshot: &BufferSnapshot,
        multi_buffer_snapshot: &MultiBufferSnapshot,
        next_inlay_id: &mut usize,
    ) -> (splice: Option<InlaySplice>)
        requires
            !old(self)@.is_outdated(new_update@) ==> {
                &&& old(self).version < usize::MAX
                &&& *old(next_inlay_id) + new_update@.add_to_cache.len() <= usize::MAX
            },
        ensures
            old(self)@.is_outdated(new_update@) ==> {
                &&& final(self)@ == old(self)@
                &&& *final(next_inlay_id) == *old(next_inlay_id)
                &&& splice is None
            },
            !old(self)@.is_outdated(new_update@) ==> {
                &&& old(self)@.updates_to(
                    final(self)@,
                    new_update@,
                    *old(next_inlay_id),
                    buffer_snapshot,
                )
                &&& *final(next_inlay_id) == *old(next_inlay_id)
                    + new_update@.add_to_cache.len()
                &&& splice_view(splice) == unless_empty(
                    old(self)@.update_splice(
                        new_update@,
                        *old(next_inlay_id),
                        multi_buffer_snapshot,
                    ),
                )
            },
    {
        let excerpt_id: ExcerptId = new_update.excerpt_id;
        let ghost update = new_update@;
        let ghost before = self@;
        let ghost first_id = *next_inlay_id;
        match self.hints.get(&excerpt_id) {
            Some(cached) => {
                if new_update.cache_version < cached.version {
                    return None;
                }
            },
            None => {},
        }
        let cached_hints: Vec<(InlayId, InlayHint)> = match self.hints.remove(&excerpt_id) {
            Some(cached) => cached.hints,
            None => Vec::new(),
        };
        assert(hint_views(cached_hints@) =~= before.hints_of(excerpt_id));
        let mut hints = keep_hints(cached_hints, &new_update.remove_from_cache);
        self.version = self.version + 1;
        let to_insert = add_hints(
            &mut hints,
            new_update.add_to_cache,
            excerpt_id,
            multi_buffer_snapshot,
            &self.allowed_hint_kinds,
            next_inlay_id,
        );
        assert(hint_views(hints@) == before.updated_hints(update, first_id));
        let cached = CachedExcerptHints {
            version: new_update.cache_version,
            buffer_version: buffer_snapshot.version.clone(),
            hints: sort_by_position(hints, buffer_snapshot),
        };
        let ghost entry = cached@;
        self.hints.insert(excerpt_id, cached);
        proof {
            assert(self@.hints =~= before.hints.insert(excerpt_id, entry));
        }
        let splice = InlaySplice { to_remove: new_update.remove_from_visible, to_insert };
        if splice.to_remove.len() == 0 && splice.to_insert.len() == 0 {
            None
        } else {
            Some(splice)
        }
    }
}

} // verus!
