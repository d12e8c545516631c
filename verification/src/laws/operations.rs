//! What the operations of the library return and change, in terms of what they are given.

use std::collections::HashMap;
use std::ops::{ControlFlow, Range};

use smol::channel::Receiver;
use vstd::prelude::*;

use crate::anchor::{
    contains_position, Anchor, BufferSnapshot, ExcerptId, MultiBufferSnapshot, TextAnchor,
};
use crate::cache::{flow_view, InlayHintCache, RefreshRequest};
use crate::clock::Global;
use crate::hint::{
    HintKinds, Inlay, InlayHint, InlayHintKind, InlayHintSettings, InlayId,
};
use crate::laws::comparison::Comparison;
use crate::laws::decisions::{
    law_failures_are_reported, law_range_is_the_first_listed,
    law_refresh_asks_for_what_has_no_task, needs_hints,
};
use crate::laws::order::{
    law_search_finds_what_is_there, law_sorted_hints_are_in_order,
    law_sorting_keeps_order_at_one_position,
};
use crate::laws::positions::{
    law_rank_is_that_of_the_first_entry, law_version_changes_with_any_replica,
};
use crate::laws::ranges::law_ranges_cover_the_excerpt;
use crate::laws::settings::{chooses, SettingsChange};
use crate::laws::takeover::Takeover;
use crate::order::{hint_views, place_as_int, search_position, sort_by_position};
use crate::query::{ExcerptDimensions, ExcerptQuery, HintFetchRanges, InvalidationStrategy};
use crate::splice::{
    excerpt_views, splice_along, splice_view, unless_empty, InlaySplice, KindsChange,
};
use crate::tasks::{
    decide, failures_from, new_update_task, ExcerptStep, FetchOutcome, NewUpdateTask, RunStage,
    SpawnedTask, TaskDecision, UpdateRun, UpdateTask, VisibleExcerpt,
};
use crate::updates::{
    bare_views, cached_views, calculate_hint_updates, is_update_for, CachedExcerptHints,
    ExcerptHintsUpdate, FetchedHints,
};

verus! {

/// A buffer ranks an anchor by its first entry, and by 0 without one.
pub proof fn law_rank(buffer: &BufferSnapshot, anchor: TextAnchor, rank: u64)
    requires
        call_ensures(BufferSnapshot::rank, (buffer, anchor), rank),
    ensures
        forall|i: int|
            0 <= i < buffer.ranks@.len() && (#[trigger] buffer.ranks@[i]).anchor == anchor && (
            forall|j: int| 0 <= j < i ==> (#[trigger] buffer.ranks@[j]).anchor != anchor) ==> rank
                == buffer.ranks@[i].rank,
        (forall|j: int|
            0 <= j < buffer.ranks@.len() ==> (#[trigger] buffer.ranks@[j]).anchor != anchor)
            ==> rank == 0,
{
    law_rank_is_that_of_the_first_entry(*buffer, anchor);
}

/// A range contains the positions from its start to its end, both counted in, whatever the
/// insertions and biases of the anchors.
pub proof fn law_contains_position(
    range: &Range<TextAnchor>,
    position: TextAnchor,
    buffer: &BufferSnapshot,
    contained: bool,
)
    requires
        call_ensures(contains_position, (range, position, buffer), contained),
    ensures
        contained <==> buffer.rank(range.start) <= buffer.rank(position) && buffer.rank(position)
            <= buffer.rank(range.end),
{
}

/// A position in an excerpt names the excerpt, its buffer and the position in the buffer.
pub proof fn law_anchor_in_excerpt(
    multi_buffer: &MultiBufferSnapshot,
    excerpt_id: ExcerptId,
    text_anchor: TextAnchor,
    anchor: Anchor,
)
    requires
        call_ensures(
            MultiBufferSnapshot::anchor_in_excerpt,
            (multi_buffer, excerpt_id, text_anchor),
            anchor,
        ),
    ensures
        anchor.excerpt_id == excerpt_id,
        anchor.text_anchor == text_anchor,
        multi_buffer.excerpts@.contains_key(excerpt_id) ==> anchor.buffer_id == Some(
            multi_buffer.excerpts@[excerpt_id],
        ),
        !multi_buffer.excerpts@.contains_key(excerpt_id) ==> anchor.buffer_id is None,
{
}

/// The buffer of an anchor is the one with its id, where there is one.
pub proof fn law_buffer(
    multi_buffer: &MultiBufferSnapshot,
    buffer_id: Option<u64>,
    buffer: Option<&BufferSnapshot>,
)
    requires
        call_ensures(MultiBufferSnapshot::buffer, (multi_buffer, buffer_id), buffer),
    ensures
        buffer is Some <==> buffer_id is Some && multi_buffer.buffers@.contains_key(buffer_id->0),
        buffer is Some ==> *buffer->0 == multi_buffer.buffers@[buffer_id->0],
{
}

/// A version has changed since another if some replica has a later edit in it.
pub proof fn law_changed_since(version: &Global, other: &Global, changed: bool)
    requires
        call_ensures(Global::changed_since, (version, other), changed),
    ensures
        changed <==> exists|replica: int|
            0 <= replica < version.values@.len() && if replica < other.values@.len() {
                #[trigger] version.values@[replica] > other.values@[replica]
            } else {
                version.values@[replica] > 0
            },
{
    law_version_changes_with_any_replica(version.values@, other.values@);
}

/// Two hints are the same if they agree in all their parts.
pub proof fn law_same_hint(a: &InlayHint, b: &InlayHint, same: bool)
    requires
        call_ensures(InlayHint::same_as, (a, b), same),
    ensures
        same <==> {
            &&& a.position == b.position
            &&& a.label@ == b.label@
            &&& a.kind == b.kind
            &&& a.padding_left == b.padding_left
            &&& a.padding_right == b.padding_right
            &&& match (a.tooltip, b.tooltip) {
                (Some(s), Some(t)) => s@ == t@,
                (None, None) => true,
                _ => false,
            }
        },
{
}

/// The settings choose each of the three kinds by itself, and whether the set has a kind is
/// told of each by itself.
pub proof fn law_kinds(
    settings: &InlayHintSettings,
    kinds: HintKinds,
    kind: Option<InlayHintKind>,
    contained: bool,
)
    requires
        call_ensures(InlayHintSettings::enabled_inlay_hint_kinds, (settings,), kinds),
        call_ensures(HintKinds::contains, (&kinds, kind), contained),
    ensures
        contained == chooses(*settings, kind),
{
}

/// A hint is found only at the position, and where there is one among hints that are in order,
/// one is found.
pub proof fn law_search_position(
    hints: &Vec<(InlayId, InlayHint)>,
    position: TextAnchor,
    buffer: &BufferSnapshot,
    found: Option<usize>,
)
    requires
        call_ensures(search_position, (hints, position, buffer), found),
    ensures
        found is Some ==> found->0 < hints@.len() && buffer.rank(
            hints@[found->0 as int].1.position,
        ) == buffer.rank(position),
        (forall|i: int, j: int|
            0 <= i < j < hints@.len() ==> buffer.rank((#[trigger] hints@[i]).1.position)
                <= buffer.rank((#[trigger] hints@[j]).1.position)) && (exists|i: int|
            0 <= i < hints@.len() && buffer.rank((#[trigger] hints@[i]).1.position)
                == buffer.rank(position)) ==> found is Some,
{
    let views = hint_views(hints@);
    law_search_finds_what_is_there(views, position, buffer, place_as_int(found));
    if (forall|i: int, j: int|
        0 <= i < j < hints@.len() ==> buffer.rank((#[trigger] hints@[i]).1.position)
            <= buffer.rank((#[trigger] hints@[j]).1.position)) && (exists|i: int|
        0 <= i < hints@.len() && buffer.rank((#[trigger] hints@[i]).1.position) == buffer.rank(
            position,
        )) {
        let i = choose|i: int|
            0 <= i < hints@.len() && buffer.rank((#[trigger] hints@[i]).1.position)
                == buffer.rank(position);
        assert(views[i].1.position == hints@[i].1.position);
        assert forall|i: int, j: int| 0 <= i < j < views.len() implies buffer.rank(
            (#[trigger] views[i]).1.position,
        ) <= buffer.rank((#[trigger] views[j]).1.position) by {
            assert(buffer.rank(hints@[i].1.position) <= buffer.rank(hints@[j].1.position));
        }
    }
}

/// Sorting keeps every hint, puts them in the order of their positions, and leaves hints at one
/// position in their order.
pub proof fn law_sort_by_position(
    hints: Vec<(InlayId, InlayHint)>,
    buffer: &BufferSnapshot,
    sorted: Vec<(InlayId, InlayHint)>,
    i: int,
    j: int,
)
    requires
        call_ensures(sort_by_position, (hints, buffer), sorted),
    ensures
        sorted@.len() == hints@.len(),
        hint_views(sorted@).to_multiset() == hint_views(hints@).to_multiset(),
        0 <= i < j < sorted@.len() ==> buffer.rank(sorted@[i].1.position) <= buffer.rank(
            sorted@[j].1.position,
        ),
        0 <= i < j < hints@.len() && buffer.rank(hints@[i].1.position) == buffer.rank(
            hints@[j].1.position,
        ) ==> exists|k: int, l: int|
            0 <= k < l < sorted@.len() && (#[trigger] sorted@[k]).0 == hints@[i].0
                && sorted@[k].1@ == hints@[i].1@ && (#[trigger] sorted@[l]).0 == hints@[j].0
                && sorted@[l].1@ == hints@[j].1@,
{
    let before = hint_views(hints@);
    let after = hint_views(sorted@);
    law_sorted_hints_are_in_order(before, after, buffer);
    if 0 <= i < j < sorted@.len() {
        assert(buffer.rank(after[i].1.position) <= buffer.rank(after[j].1.position));
    }
    if 0 <= i < j < hints@.len() && buffer.rank(hints@[i].1.position) == buffer.rank(
        hints@[j].1.position,
    ) {
        law_sorting_keeps_order_at_one_position(before, after, buffer, i, j);
        let (k, l) = choose|k: int, l: int|
            0 <= k < l < after.len() && #[trigger] after[k] == before[i] && #[trigger] after[l]
                == before[j];
        assert(sorted@[k].0 == hints@[i].0 && sorted@[l].0 == hints@[j].0);
    }
}

/// The ranges to fetch are the visible range; what the excerpt has before it, up to one offset
/// before it; and what the excerpt has after it, from one offset after it, each whenever there
/// is such a part, and nothing else.
pub proof fn law_hints_fetch_ranges(
    query: &ExcerptQuery,
    buffer: &BufferSnapshot,
    ranges: HintFetchRanges,
)
    requires
        call_requires(ExcerptQuery::hints_fetch_ranges, (query, buffer)),
        query.dimensions.excerpt_visible_range_start.offset > 0 || buffer.rank(
            query.dimensions.excerpt_range_start,
        ) >= buffer.rank(query.dimensions.excerpt_visible_range_start),
        query.dimensions.excerpt_visible_range_end.offset < usize::MAX || buffer.rank(
            query.dimensions.excerpt_range_end,
        ) <= buffer.rank(query.dimensions.excerpt_visible_range_end),
        call_ensures(ExcerptQuery::hints_fetch_ranges, (query, buffer), ranges),
    ensures
        ({
            let dimensions = query.dimensions;
            let first = dimensions.excerpt_visible_range_start;
            let last = dimensions.excerpt_visible_range_end;
            let starts_before = buffer.rank(dimensions.excerpt_range_start) < buffer.rank(first);
            let ends_after = buffer.rank(dimensions.excerpt_range_end) > buffer.rank(last);
            let before = Range {
                start: dimensions.excerpt_range_start,
                end: TextAnchor {
                    insertion: first.insertion,
                    offset: (first.offset - 1) as usize,
                    bias: first.bias,
                },
            };
            let after = Range {
                start: TextAnchor {
                    insertion: last.insertion,
                    offset: (last.offset + 1) as usize,
                    bias: last.bias,
                },
                end: dimensions.excerpt_range_end,
            };
            let others = ranges.other_ranges@;
            &&& ranges.visible_range == Range { start: first, end: last }
            &&& others.contains(before) || !starts_before
            &&& others.contains(after) || !ends_after
            &&& others.len() == (if starts_before {
                1int
            } else {
                0
            }) + (if ends_after {
                1int
            } else {
                0
            })
        }),
{
    law_ranges_cover_the_excerpt(*query, buffer, ranges);
    let others = ranges.other_ranges@;
    if others.len() > 0 {
        assert(others.contains(others[0]));
    }
    if others.len() > 1 {
        assert(others.contains(others[1]));
    }
}

/// The ranges to fetch exist unless an offset beside the visible range cannot be expressed
/// although the excerpt goes on there.
pub proof fn law_neighbours_exist(query: &ExcerptQuery, buffer: &BufferSnapshot, exist: bool)
    requires
        call_ensures(ExcerptQuery::neighbours_exist, (query, buffer), exist),
    ensures
        exist <==> {
            &&& buffer.rank(query.dimensions.excerpt_range_start) < buffer.rank(
                query.dimensions.excerpt_visible_range_start,
            ) ==> query.dimensions.excerpt_visible_range_start.offset > 0
            &&& buffer.rank(query.dimensions.excerpt_range_end) > buffer.rank(
                query.dimensions.excerpt_visible_range_end,
            ) ==> query.dimensions.excerpt_visible_range_end.offset < usize::MAX
        },
        exist ==> call_requires(ExcerptQuery::hints_fetch_ranges, (query, buffer)),
{
}

/// A forced refresh and one on a conflict invalidate; any other does not.
pub proof fn law_invalidates(strategy: &InvalidationStrategy, invalidates: bool)
    requires
        call_ensures(InvalidationStrategy::invalidates, (strategy,), invalidates),
    ensures
        invalidates <==> *strategy == InvalidationStrategy::Forced || *strategy
            == InvalidationStrategy::OnConflict,
{
}

/// What becomes of the task of an excerpt, case by case.
pub proof fn law_decide(
    task: Option<&UpdateTask>,
    running: bool,
    strategy: InvalidationStrategy,
    cache_is_empty: bool,
    decision: TaskDecision,
)
    requires
        call_ensures(decide, (task, running, strategy, cache_is_empty), decision),
    ensures
        task is None || !running ==> decision == TaskDecision::Replace,
        task is Some && running ==> decision == match (
            task->0.current.0,
            strategy,
            cache_is_empty,
            task->0.pending_refresh,
        ) {
            (InvalidationStrategy::Forced, _, _, _) => TaskDecision::Replace,
            (_, InvalidationStrategy::OnConflict, _, _) => TaskDecision::Replace,
            (_, InvalidationStrategy::Forced, true, _) => TaskDecision::Replace,
            (_, InvalidationStrategy::Forced, false, None) => TaskDecision::Follow,
            (_, InvalidationStrategy::Forced, false, Some(_)) => TaskDecision::Keep,
            (_, InvalidationStrategy::Never, _, _) => TaskDecision::Keep,
        },
{
}

/// A refresh while no hints are shown asks for nothing and changes nothing.
pub proof fn law_refresh_switched_off(
    cache: &mut InlayHintCache,
    queried: HashMap<ExcerptId, (u64, Range<usize>)>,
    strategy: InvalidationStrategy,
    request: Option<RefreshRequest>,
)
    requires
        call_ensures(InlayHintCache::refresh_inlay_hints, (cache, queried, strategy), request),
        !old(cache).enabled,
    ensures
        request is None,
        final(cache)@ == old(cache)@,
{
}

/// A refresh asks for every excerpt that is to be queried and has no task, or one from an
/// earlier version, whatever the strategy and the version of the cache; for one with a task from
/// the present version only if it is forced or on a conflict; and for nothing else. One that is
/// forced or on a conflict ends the tasks of excerpts that are not to be queried. Nothing else
/// changes.
pub proof fn law_refresh_inlay_hints(
    cache: &mut InlayHintCache,
    queried: HashMap<ExcerptId, (u64, Range<usize>)>,
    strategy: InvalidationStrategy,
    request: Option<RefreshRequest>,
    id: ExcerptId,
)
    requires
        call_ensures(InlayHintCache::refresh_inlay_hints, (cache, queried, strategy), request),
        old(cache).enabled,
    ensures
        ({
            let tasks = old(cache).update_tasks@;
            let version = old(cache).version;
            let asked = request->0.excerpts_to_query@;
            &&& request is Some
            &&& request->0.invalidate == strategy
            &&& request->0.cache_version == version
            &&& asked.contains_key(id) ==> queried@.contains_key(id) && asked[id] == queried@[id]
            &&& queried@.contains_key(id) && !tasks.contains_key(id) ==> asked.contains_key(id)
            &&& queried@.contains_key(id) && tasks.contains_key(id) ==> {
                let task_version = tasks[id].current.1.version;
                &&& task_version < version ==> asked.contains_key(id)
                &&& task_version == version ==> (asked.contains_key(id) <==> strategy
                    != InvalidationStrategy::Never)
                &&& task_version > version ==> !asked.contains_key(id)
            }
            &&& strategy == InvalidationStrategy::Never || queried@.contains_key(id)
                ==> final(cache).update_tasks@.get(id) == tasks.get(id)
            &&& strategy != InvalidationStrategy::Never && !queried@.contains_key(id)
                ==> !final(cache).update_tasks@.contains_key(id)
            &&& final(cache).version == version
            &&& final(cache).enabled
            &&& final(cache)@.hints == old(cache)@.hints
            &&& final(cache)@.allowed_hint_kinds == old(cache)@.allowed_hint_kinds
        }),
{
    law_refresh_asks_for_what_has_no_task(
        old(cache)@,
        final(cache)@,
        queried@,
        request->0.excerpts_to_query@,
        strategy,
        id,
    );
    assert(final(cache)@.version == old(cache)@.version);
}

/// An excerpt of which nothing is shown gets no task; one that is shown and needs no hints stops
/// the refresh; one that its buffer does not list gets no task.
pub proof fn law_no_task_for_excerpt(
    cache: &InlayHintCache,
    excerpt: &VisibleExcerpt,
    running: bool,
    strategy: InvalidationStrategy,
    cache_version: usize,
    step: ExcerptStep,
)
    requires
        call_ensures(
            InlayHintCache::plan_update_task,
            (cache, excerpt, running, strategy, cache_version),
            step,
        ),
    ensures
        excerpt.visible_range.start >= excerpt.visible_range.end ==> step == ExcerptStep::Skip,
        excerpt.visible_range.start < excerpt.visible_range.end && !needs_hints(
            cache@,
            *excerpt,
            strategy,
            cache_version,
        ) ==> step == ExcerptStep::Stop,
        needs_hints(cache@, *excerpt, strategy, cache_version) && (forall|j: int|
            0 <= j < excerpt.buffer_excerpts@.len() ==> (
            #[trigger] excerpt.buffer_excerpts@[j]).0 != excerpt.excerpt_id) ==> step
            == ExcerptStep::Skip,
{
    law_range_is_the_first_listed(excerpt.buffer_excerpts@, excerpt.excerpt_id);
}

/// An excerpt that needs hints, and that its buffer lists first at place `i`, gets a task in the
/// place of its present one on a conflict, whatever that one's strategy and whether or not it
/// runs; also if it has none that runs, if that one was forced, or if the refresh is forced where
/// no hints are cached. It gets one that follows, or none where one does already, if the refresh
/// is forced where hints are cached; and none if it is neither.
pub proof fn law_task_for_excerpt(
    cache: &InlayHintCache,
    excerpt: &VisibleExcerpt,
    running: bool,
    strategy: InvalidationStrategy,
    cache_version: usize,
    step: ExcerptStep,
    i: int,
)
    requires
        call_ensures(
            InlayHintCache::plan_update_task,
            (cache, excerpt, running, strategy, cache_version),
            step,
        ),
        needs_hints(cache@, *excerpt, strategy, cache_version),
        0 <= i < excerpt.buffer_excerpts@.len(),
        excerpt.buffer_excerpts@[i].0 == excerpt.excerpt_id,
        forall|j: int|
            0 <= j < i ==> (#[trigger] excerpt.buffer_excerpts@[j]).0 != excerpt.excerpt_id,
    ensures
        ({
            let id = excerpt.excerpt_id;
            let tasks = cache.update_tasks@;
            let goes_on = tasks.contains_key(id) && running && tasks[id].current.0
                != InvalidationStrategy::Forced;
            let is_cached = cache.hints@.contains_key(id);
            let has_hints = is_cached && cache.hints@[id].hints@.len() > 0;
            let query = ExcerptQuery {
                buffer_id: excerpt.buffer_id,
                excerpt_id: id,
                dimensions: ExcerptDimensions {
                    excerpt_range_start: excerpt.buffer_excerpts@[i].1.start,
                    excerpt_range_end: excerpt.buffer_excerpts@[i].1.end,
                    excerpt_visible_range_start: excerpt.visible_range_start,
                    excerpt_visible_range_end: excerpt.visible_range_end,
                },
                cache_version,
                invalidate: strategy,
            };
            let replacing = ExcerptStep::Start(
                NewUpdateTask { query, follows_current: false, has_cached_hints: is_cached },
            );
            &&& strategy == InvalidationStrategy::OnConflict ==> step == replacing
            &&& !goes_on ==> step == replacing
            &&& strategy == InvalidationStrategy::Forced && !has_hints ==> step == replacing
            &&& goes_on && strategy == InvalidationStrategy::Forced && has_hints ==> step == (
            if tasks[id].pending_refresh is None {
                ExcerptStep::Start(
                    NewUpdateTask { query, follows_current: true, has_cached_hints: true },
                )
            } else {
                ExcerptStep::Skip
            })
            &&& goes_on && strategy == InvalidationStrategy::Never ==> step == ExcerptStep::Skip
        }),
{
    law_range_is_the_first_listed(excerpt.buffer_excerpts@, excerpt.excerpt_id);
}

/// A refresh goes along the excerpts and takes the task that each asks for, given what the tasks
/// told, until one stops it.
pub proof fn law_plan_update_tasks(
    cache: &InlayHintCache,
    excerpts: &Vec<VisibleExcerpt>,
    running: &Vec<bool>,
    strategy: InvalidationStrategy,
    cache_version: usize,
    tasks: Vec<NewUpdateTask>,
)
    requires
        call_ensures(
            InlayHintCache::plan_update_tasks,
            (cache, excerpts, running, strategy, cache_version),
            tasks,
        ),
    ensures
        tasks@ == cache@.new_tasks_from(excerpts@, running@, strategy, cache_version, 0),
{
}

/// A refresh asks every task of an excerpt whether it runs, and goes by the answers.
pub proof fn law_spawn_new_update_tasks(
    cache: &InlayHintCache,
    excerpts: &Vec<VisibleExcerpt>,
    strategy: InvalidationStrategy,
    cache_version: usize,
    tasks: Vec<NewUpdateTask>,
)
    requires
        call_ensures(
            InlayHintCache::spawn_new_update_tasks,
            (cache, excerpts, strategy, cache_version),
            tasks,
        ),
    ensures
        exists|running: Seq<bool>| #[trigger]
            answers(cache, excerpts@, running) && tasks@ == cache@.new_tasks_from(
                excerpts@,
                running,
                strategy,
                cache_version,
                0,
            ),
{
    let running = choose|running: Seq<bool>|
        running.len() == excerpts@.len() && cache@.told(excerpts@, running) && tasks@
            == #[trigger] cache@.new_tasks_from(excerpts@, running, strategy, cache_version, 0);
    assert forall|k: int|
        0 <= k < excerpts@.len() && cache.update_tasks@.contains_key(
            (#[trigger] excerpts@[k]).excerpt_id,
        ) implies tells(cache.update_tasks@[excerpts@[k].excerpt_id], running[k]) by {
        assert(running[k] == running[k]);
    }
    assert(answers(cache, excerpts@, running));
}

/// Whether the channels of a task, asked whether they are closed, can tell this of it: that it
/// runs if its own is open or if there is one to follow whose is.
pub open spec fn tells(task: UpdateTask, running: bool) -> bool {
    match task.pending_refresh {
        None => call_ensures(
            Receiver::<()>::is_closed,
            (&task.current.1.is_running_rx,),
            !running,
        ),
        Some(pending) => exists|closed: bool, pending_closed: bool| #[trigger]
            call_ensures(Receiver::<()>::is_closed, (&task.current.1.is_running_rx,), closed)
                && #[trigger] call_ensures(
                Receiver::<()>::is_closed,
                (&pending.is_running_rx,),
                pending_closed,
            ) && (running <==> !closed || !pending_closed),
    }
}

/// Whether the tasks of the excerpts can tell this.
pub open spec fn answers(
    cache: &InlayHintCache,
    excerpts: Seq<VisibleExcerpt>,
    running: Seq<bool>,
) -> bool {
    &&& running.len() == excerpts.len()
    &&& forall|k: int|
        0 <= k < excerpts.len() && cache.update_tasks@.contains_key(
            (#[trigger] excerpts[k]).excerpt_id,
        ) ==> tells(cache.update_tasks@[excerpts[k].excerpt_id], running[k])
}

/// A task is noted for its excerpt: after the current one, which stays, or in its place. The
/// tasks of other excerpts and the rest of the cache stay.
pub proof fn law_insert_update_task(
    cache: &mut InlayHintCache,
    new_task: NewUpdateTask,
    is_running_rx: Receiver<()>,
    task: smol::Task<(), ()>,
    other: ExcerptId,
)
    requires
        call_ensures(
            InlayHintCache::insert_update_task,
            (cache, new_task, is_running_rx, task),
            (),
        ),
        other != new_task.query.excerpt_id,
    ensures
        ({
            let id = new_task.query.excerpt_id;
            let spawned = SpawnedTask {
                version: new_task.query.cache_version,
                is_running_rx,
                task,
            };
            let before = old(cache).update_tasks@;
            let after = final(cache).update_tasks@;
            &&& after.contains_key(id)
            &&& new_task.follows_current ==> after[id] == UpdateTask {
                current: before[id].current,
                pending_refresh: Some(spawned),
            }
            &&& !new_task.follows_current ==> after[id] == UpdateTask {
                current: (new_task.query.invalidate, spawned),
                pending_refresh: None,
            }
            &&& after.get(other) == before.get(other)
            &&& final(cache).version == old(cache).version
            &&& final(cache).enabled == old(cache).enabled
            &&& final(cache)@.hints == old(cache)@.hints
            &&& final(cache)@.allowed_hint_kinds == old(cache)@.allowed_hint_kinds
        }),
{
    assert(final(cache)@.version == old(cache)@.version);
}

/// A task that has been started has the version of its query.
pub proof fn law_new_update_task(
    query: &ExcerptQuery,
    is_running_rx: Receiver<()>,
    task: smol::Task<(), ()>,
    spawned: SpawnedTask,
    strategy: InvalidationStrategy,
    noted: UpdateTask,
)
    requires
        call_ensures(new_update_task, (query, is_running_rx, task), spawned),
        call_ensures(UpdateTask::new, (strategy, spawned), noted),
    ensures
        spawned.version == query.cache_version,
        spawned.is_running_rx == is_running_rx,
        spawned.task == task,
        noted.current == (strategy, spawned),
        noted.pending_refresh is None,
        forall|version: usize|
            call_ensures(UpdateTask::cache_version, (&noted,), version) ==> version
                == query.cache_version,
        forall|of: InvalidationStrategy|
            call_ensures(UpdateTask::invalidation_strategy, (&noted,), of) ==> of == strategy,
{
}

/// The channel of the current task of an excerpt is handed out, where it has one.
pub proof fn law_current_task_channel(
    cache: &InlayHintCache,
    excerpt_id: ExcerptId,
    channel: Option<&Receiver<()>>,
)
    requires
        call_ensures(InlayHintCache::current_task_channel, (cache, excerpt_id), channel),
    ensures
        channel is Some <==> cache.update_tasks@.contains_key(excerpt_id),
        channel is Some ==> *channel->0
            == cache.update_tasks@[excerpt_id].current.1.is_running_rx,
{
}

/// A task that follows another begins with the visible range alone, and any other with all
/// ranges.
pub proof fn law_run_begins(ranges: HintFetchRanges, follows: bool, run: UpdateRun)
    requires
        call_ensures(UpdateRun::new, (ranges, follows), run),
    ensures
        run.ranges == ranges,
        follows ==> run.stage == RunStage::VisibleRange,
        !follows ==> run.stage == RunStage::Everything,
{
}

/// A task asks for all its ranges, the visible one first; for the visible one; for the others;
/// or for none, by its stage.
pub proof fn law_run_asks(run: &UpdateRun, next: Vec<Range<TextAnchor>>)
    requires
        call_ensures(UpdateRun::next_ranges, (run,), next),
    ensures
        run.stage == RunStage::Everything ==> next@.len() == run.ranges.other_ranges@.len() + 1
            && next@[0] == run.ranges.visible_range && forall|i: int|
            0 <= i < run.ranges.other_ranges@.len() ==> #[trigger] run.ranges.other_ranges@[i]
                == next@[i + 1],
        run.stage == RunStage::VisibleRange ==> next@.len() == 1 && next@[0]
            == run.ranges.visible_range,
        run.stage == RunStage::OtherRanges ==> next@ == run.ranges.other_ranges@,
        run.stage == RunStage::Finished ==> next@.len() == 0,
{
}

/// A task goes on only from the visible range to the others, and only if the visible range
/// changed something; else it is at its end. All failures of the fetches that run at once are
/// reported; of the others the first; and none at the end.
pub proof fn law_run_advances(
    run: &mut UpdateRun,
    outcomes: &Vec<FetchOutcome>,
    reported: Vec<usize>,
    i: int,
)
    requires
        call_ensures(UpdateRun::advance, (run, outcomes), reported),
        outcomes@.len() <= usize::MAX,
    ensures
        final(run).ranges == old(run).ranges,
        old(run).stage == RunStage::VisibleRange && outcomes@.len() > 0 && outcomes@[0]
            == FetchOutcome::Updated ==> final(run).stage == RunStage::OtherRanges,
        !(old(run).stage == RunStage::VisibleRange && outcomes@.len() > 0 && outcomes@[0]
            == FetchOutcome::Updated) ==> final(run).stage == RunStage::Finished,
        forall|n: int|
            0 <= n < reported@.len() ==> (#[trigger] reported@[n]) < outcomes@.len(),
        0 <= i < outcomes@.len() && old(run).stage == RunStage::Everything ==> (
        reported@.contains(i as usize) <==> outcomes@[i] == FetchOutcome::Failed),
        0 <= i < outcomes@.len() && (old(run).stage == RunStage::VisibleRange || old(run).stage
            == RunStage::OtherRanges) ==> (reported@.contains(i as usize) <==> outcomes@[i]
            == FetchOutcome::Failed && forall|j: int|
            0 <= j < i ==> #[trigger] outcomes@[j] != FetchOutcome::Failed),
        old(run).stage == RunStage::Finished ==> reported@.len() == 0,
        forall|n: int, m: int|
            0 <= n < m < reported@.len() ==> (#[trigger] reported@[n]) < (#[trigger] reported@[m]),
{
    law_failures_are_reported(outcomes@);
    let failures = failures_from(outcomes@, 0);
    if 0 <= i < outcomes@.len() && (old(run).stage == RunStage::VisibleRange || old(run).stage
        == RunStage::OtherRanges) {
        if failures.len() > 0 {
            let first = failures[0];
            assert(failures.contains(first));
            assert(outcomes@[first as int] == FetchOutcome::Failed);
            assert(reported@[0] == first);
            if reported@.contains(i as usize) {
                assert(i == first);
                assert forall|j: int| 0 <= j < i implies #[trigger] outcomes@[j]
                    != FetchOutcome::Failed by {
                    if outcomes@[j] == FetchOutcome::Failed {
                        let n = choose|n: int| 0 <= n < failures.len() && failures[n] == j as usize;
                        if n > 0 {
                            assert(failures[0] < failures[n]);
                        }
                    }
                }
            }
            if outcomes@[i] == FetchOutcome::Failed && (forall|j: int|
                0 <= j < i ==> #[trigger] outcomes@[j] != FetchOutcome::Failed) {
                let n = choose|n: int| 0 <= n < failures.len() && failures[n] == i as usize;
                if n > 0 {
                    assert(failures[0] < failures[n]);
                }
                assert(first == i);
            }
        } else {
            if outcomes@[i] == FetchOutcome::Failed {
                assert(failures.contains(i as usize));
            }
        }
    }
}

/// A new cache has no hints and no tasks, is at its first version, and takes its switch and its
/// kinds from the settings.
pub proof fn law_new_cache(settings: InlayHintSettings, cache: InlayHintCache)
    requires
        call_ensures(InlayHintCache::new, (settings,), cache),
    ensures
        cache.version == 0,
        cache.enabled == settings.enabled,
        forall|id: ExcerptId| !#[trigger] cache.hints@.contains_key(id),
        forall|id: ExcerptId| !#[trigger] cache.update_tasks@.contains_key(id),
        forall|kind: Option<InlayHintKind>|
            cache.allowed_hint_kinds@.contains(kind) == #[trigger] chooses(settings, kind),
{
    assert(cache@.version == 0);
    assert forall|id: ExcerptId| !#[trigger] cache.hints@.contains_key(id) by {
        assert(!cache@.hints.contains_key(id));
    }
    assert forall|kind: Option<InlayHintKind>|
        cache.allowed_hint_kinds@.contains(kind) == #[trigger] chooses(settings, kind) by {
        assert(cache@.allowed_hint_kinds.contains(kind) == chooses(settings, kind));
    }
}

/// New settings are taken as the laws on settings say.
pub proof fn law_update_settings(
    cache: &mut InlayHintCache,
    multi_buffer: &MultiBufferSnapshot,
    settings: InlayHintSettings,
    visible_hints: Vec<Inlay>,
    flow: ControlFlow<Option<InlaySplice>>,
)
    requires
        call_ensures(
            InlayHintCache::update_settings,
            (cache, multi_buffer, settings, visible_hints),
            flow,
        ),
    ensures
        (SettingsChange {
            before: old(cache)@,
            after: final(cache)@,
            flow: flow_view(flow),
            multi_buffer: *multi_buffer,
            settings,
            visible_hints: visible_hints@,
        }).happens(),
{
}

/// What the editor has to change for other kinds is nothing where the kinds are the same, and
/// otherwise what the excerpts ask for, each once.
pub proof fn law_new_allowed_hint_kinds_splice(
    cache: &InlayHintCache,
    multi_buffer: &MultiBufferSnapshot,
    visible_hints: &[Inlay],
    new_kinds: &HintKinds,
    splice: Option<InlaySplice>,
)
    requires
        call_ensures(
            InlayHintCache::new_allowed_hint_kinds_splice,
            (cache, multi_buffer, visible_hints, new_kinds),
            splice,
        ),
    ensures
        new_kinds@ == cache.allowed_hint_kinds@ ==> splice is None,
        new_kinds@ != cache.allowed_hint_kinds@ ==> {
            let change = KindsChange {
                hints: cache@.hints,
                multi_buffer: *multi_buffer,
                visible_hints: visible_hints@,
                old_kinds: cache.allowed_hint_kinds@,
                new_kinds: new_kinds@,
            };
            exists|walk: Seq<ExcerptId>|
                walk.no_duplicates() && (forall|id: ExcerptId| #[trigger]
                    walk.contains(id) <==> cache.hints@.contains_key(id) || exists|i: int|
                        0 <= i < visible_hints@.len() && (
                        #[trigger] visible_hints@[i]).position.excerpt_id == id)
                    && splice_view(splice) == unless_empty(#[trigger] change.splice(walk))
        },
{
    if new_kinds@ != cache.allowed_hint_kinds@ {
        let change = KindsChange {
            hints: cache@.hints,
            multi_buffer: *multi_buffer,
            visible_hints: visible_hints@,
            old_kinds: cache.allowed_hint_kinds@,
            new_kinds: new_kinds@,
        };
        assert(change == cache@.change_of_kinds(multi_buffer, visible_hints@, new_kinds@));
        let walk = choose|walk: Seq<ExcerptId>| #[trigger]
            cache@.change_of_kinds(multi_buffer, visible_hints@, new_kinds@).is_walk(walk)
                && splice_view(splice) == unless_empty(
                cache@.change_of_kinds(multi_buffer, visible_hints@, new_kinds@).splice(walk),
            );
        assert forall|id: ExcerptId| #[trigger]
            walk.contains(id) <==> cache.hints@.contains_key(id) || exists|i: int|
                0 <= i < visible_hints@.len() && (
                #[trigger] visible_hints@[i]).position.excerpt_id == id by {
            assert(change.hints.contains_key(id) <==> cache.hints@.contains_key(id));
            assert(walk.contains(id) <==> change.hints.contains_key(id) || change.is_shown(id));
        }
        assert(splice_view(splice) == unless_empty(change.splice(walk)));
    }
}

/// Fetched hints are compared as the laws on comparisons say.
pub proof fn law_calculate_hint_updates(
    query: ExcerptQuery,
    fetch_range: Range<TextAnchor>,
    new_hints: Vec<InlayHint>,
    buffer: &BufferSnapshot,
    cached: Option<&CachedExcerptHints>,
    visible_hints: &[Inlay],
    update: Option<ExcerptHintsUpdate>,
)
    requires
        call_ensures(
            calculate_hint_updates,
            (query, fetch_range, new_hints, buffer, cached, visible_hints),
            update,
        ),
    ensures
        (Comparison {
            query,
            range: fetch_range,
            new_hints: new_hints@,
            buffer: *buffer,
            cached,
            visible_hints: visible_hints@,
        }).tells(update),
{
    let comparison = Comparison {
        query,
        range: fetch_range,
        new_hints: new_hints@,
        buffer: *buffer,
        cached,
        visible_hints: visible_hints@,
    };
    let fetched = choose|fetched: FetchedHints| #[trigger]
        fetched.compares(
            fetch_range,
            *buffer,
            bare_views(new_hints@),
            cached_views(cached),
        ) && is_update_for(update, fetched, query, visible_hints@);
    assert(fetched.compares(
        comparison.range,
        comparison.buffer,
        bare_views(comparison.new_hints),
        cached_views(comparison.cached),
    ));
}

/// An update changes something if it removes or adds anything.
pub proof fn law_changes_anything(update: &ExcerptHintsUpdate, changes: bool)
    requires
        call_ensures(ExcerptHintsUpdate::changes_anything, (update,), changes),
    ensures
        changes <==> update.remove_from_visible@.len() > 0 || update.remove_from_cache@.len() > 0
            || update.add_to_cache@.len() > 0,
{
}

/// An update is taken as the laws on updates say.
pub proof fn law_apply_hint_update(
    cache: &mut InlayHintCache,
    update: ExcerptHintsUpdate,
    buffer: &BufferSnapshot,
    multi_buffer: &MultiBufferSnapshot,
    next_inlay_id: &mut usize,
    splice: Option<InlaySplice>,
)
    requires
        call_ensures(
            InlayHintCache::apply_hint_update,
            (cache, update, buffer, multi_buffer, next_inlay_id),
            splice,
        ),
    ensures
        (Takeover {
            before: old(cache)@,
            after: final(cache)@,
            update: update@,
            first_id: *old(next_inlay_id),
            next_id: *final(next_inlay_id),
            buffer: *buffer,
            multi_buffer: *multi_buffer,
            splice: splice_view(splice),
        }).happens(),
{
}

/// Whether a version is left is told as the laws on settings say.
pub proof fn law_has_version_for_settings(
    cache: &InlayHintCache,
    multi_buffer: &MultiBufferSnapshot,
    settings: InlayHintSettings,
    visible_hints: &[Inlay],
    has_version: bool,
)
    requires
        call_ensures(
            InlayHintCache::has_version_for_settings,
            (cache, multi_buffer, settings, visible_hints),
            has_version,
        ),
    ensures
        has_version == cache@.has_version_for_settings(multi_buffer, settings, visible_hints@),
{
}

/// What the editor has to change, along a walk over the excerpts.
pub proof fn law_splice_along(
    hints: &HashMap<ExcerptId, CachedExcerptHints>,
    multi_buffer: &MultiBufferSnapshot,
    visible_hints: &[Inlay],
    old_kinds: &HintKinds,
    new_kinds: &HintKinds,
    walk: &Vec<ExcerptId>,
    splice: Option<InlaySplice>,
)
    requires
        call_ensures(
            splice_along,
            (hints, multi_buffer, visible_hints, old_kinds, new_kinds, walk),
            splice,
        ),
    ensures
        ({
            let change = KindsChange {
                hints: Map::new(
                    |id: ExcerptId| hints@.contains_key(id),
                    |id: ExcerptId| hints@[id]@,
                ),
                multi_buffer: *multi_buffer,
                visible_hints: visible_hints@,
                old_kinds: old_kinds@,
                new_kinds: new_kinds@,
            };
            let told = change.splice(walk@);
            if told.to_remove.len() == 0 && told.to_insert.len() == 0 {
                splice is None
            } else {
                splice is Some && splice->0@ == told
            }
        }),
{
    let change = KindsChange {
        hints: Map::new(|id: ExcerptId| hints@.contains_key(id), |id: ExcerptId| hints@[id]@),
        multi_buffer: *multi_buffer,
        visible_hints: visible_hints@,
        old_kinds: old_kinds@,
        new_kinds: new_kinds@,
    };
    assert(change.hints =~= excerpt_views(hints@));
}

/// A kind that is added to a set is in it, and every other is as before; sets are the same if
/// they have the same of the three kinds.
pub proof fn law_kinds_insert(
    kinds: &mut HintKinds,
    kind: Option<InlayHintKind>,
    other: &HintKinds,
    same: bool,
)
    requires
        call_ensures(HintKinds::insert, (kinds, kind), ()),
        call_ensures(HintKinds::same_as, (final(kinds), other), same),
    ensures
        final(kinds).types == (old(kinds).types || kind == Some(InlayHintKind::Type)),
        final(kinds).parameters == (old(kinds).parameters || kind == Some(
            InlayHintKind::Parameter,
        )),
        final(kinds).others == (old(kinds).others || kind is None),
        same <==> final(kinds).types == other.types && final(kinds).parameters == other.parameters
            && final(kinds).others == other.others,
{
    assert(final(kinds)@.contains(Some(InlayHintKind::Type)) == final(kinds).types);
    assert(final(kinds)@.contains(Some(InlayHintKind::Parameter)) == final(kinds).parameters);
    assert(final(kinds)@.contains(None) == final(kinds).others);
    assert(old(kinds)@.contains(Some(InlayHintKind::Type)) == old(kinds).types);
    assert(old(kinds)@.contains(Some(InlayHintKind::Parameter)) == old(kinds).parameters);
    assert(old(kinds)@.contains(None) == old(kinds).others);
}

/// The range of an excerpt is the first that its buffer lists for it.
pub proof fn law_full_range(excerpt: &VisibleExcerpt, range: Option<Range<TextAnchor>>)
    requires
        call_ensures(VisibleExcerpt::full_range, (excerpt,), range),
    ensures
        forall|i: int|
            0 <= i < excerpt.buffer_excerpts@.len() && (#[trigger] excerpt.buffer_excerpts@[i]).0
                == excerpt.excerpt_id && (forall|j: int|
                0 <= j < i ==> (#[trigger] excerpt.buffer_excerpts@[j]).0 != excerpt.excerpt_id)
                ==> range == Some(excerpt.buffer_excerpts@[i].1),
        (forall|j: int|
            0 <= j < excerpt.buffer_excerpts@.len() ==> (
            #[trigger] excerpt.buffer_excerpts@[j]).0 != excerpt.excerpt_id) ==> range is None,
{
    law_range_is_the_first_listed(excerpt.buffer_excerpts@, excerpt.excerpt_id);
}

/// The operations can be called on everything, but for an update or settings that would raise
/// the last version there is or give an id beyond the last, and for a task that is to follow
/// one that is not there.
pub proof fn law_operations_can_be_called(
    cache: &mut InlayHintCache,
    queried: HashMap<ExcerptId, (u64, Range<usize>)>,
    strategy: InvalidationStrategy,
    multi_buffer: &MultiBufferSnapshot,
    settings: InlayHintSettings,
    visible_hints: Vec<Inlay>,
    update: ExcerptHintsUpdate,
    buffer: &BufferSnapshot,
    next_inlay_id: &mut usize,
    new_task: NewUpdateTask,
    is_running_rx: Receiver<()>,
    task: smol::Task<(), ()>,
)
    ensures
        call_requires(InlayHintCache::refresh_inlay_hints, (cache, queried, strategy)),
        old(cache).version < usize::MAX || !old(cache).enabled ==> call_requires(
            InlayHintCache::update_settings,
            (cache, multi_buffer, settings, visible_hints),
        ),
        old(cache).version < usize::MAX && *old(next_inlay_id) + update.add_to_cache@.len()
            <= usize::MAX ==> call_requires(
            InlayHintCache::apply_hint_update,
            (cache, update, buffer, multi_buffer, next_inlay_id),
        ),
        new_task.follows_current ==> old(cache).update_tasks@.contains_key(
            new_task.query.excerpt_id,
        ) ==> call_requires(
            InlayHintCache::insert_update_task,
            (cache, new_task, is_running_rx, task),
        ),
{
}

} // verus!
