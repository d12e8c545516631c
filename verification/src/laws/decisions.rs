//! What becomes of the tasks of the excerpts.

use std::ops::Range;

use smol::channel::Receiver;
use vstd::prelude::*;

use crate::anchor::{ExcerptId, TextAnchor};
use crate::cache::CacheView;
use crate::clock::changed_since;
use crate::query::{ExcerptDimensions, ExcerptQuery, InvalidationStrategy};
use crate::tasks::{
    at_most_first, failures_from, first_range, spec_decide, ExcerptStep, FetchOutcome,
    NewUpdateTask, RunStage, SpawnedTask, TaskDecision, UpdateRun, UpdateTask, VisibleExcerpt,
};

verus! {

/// The task of an excerpt goes on only if it runs, was not forced, and the new refresh either
/// is neither forced nor on a conflict, or is forced where hints are cached and another task is
/// to follow already. A new task follows it only if it runs, was not forced, and the refresh is
/// forced where hints are cached and none is to follow yet. In every other case a new task takes
/// its place.
pub proof fn law_decision_by_cases(
    task: UpdateTask,
    running: bool,
    strategy: InvalidationStrategy,
    cache_is_empty: bool,
)
    ensures
        spec_decide(None, running, strategy, cache_is_empty) == TaskDecision::Replace,
        !running ==> spec_decide(Some(task), running, strategy, cache_is_empty)
            == TaskDecision::Replace,
        running ==> spec_decide(Some(task), running, strategy, cache_is_empty) == match (
            task.current.0,
            strategy,
            cache_is_empty,
            task.pending_refresh,
        ) {
            (InvalidationStrategy::Forced, _, _, _) => TaskDecision::Replace,
            (_, InvalidationStrategy::OnConflict, _, _) => TaskDecision::Replace,
            (_, InvalidationStrategy::Forced, true, _) => TaskDecision::Replace,
            (_, InvalidationStrategy::Forced, false, None) => TaskDecision::Follow,
            (_, InvalidationStrategy::Forced, false, Some(_)) => TaskDecision::Keep,
            (_, InvalidationStrategy::Never, _, _) => TaskDecision::Keep,
        },
{
}

proof fn lemma_first_range(
    excerpts: Seq<(ExcerptId, Range<TextAnchor>)>,
    excerpt_id: ExcerptId,
    i: int,
)
    requires
        0 <= i < excerpts.len(),
        excerpts[i].0 == excerpt_id,
        forall|j: int| 0 <= j < i ==> (#[trigger] excerpts[j]).0 != excerpt_id,
    ensures
        first_range(excerpts, excerpt_id) == Some(excerpts[i].1),
    decreases excerpts.len(),
{
    if i > 0 {
        assert(excerpts[0].0 != excerpt_id);
        let rest = excerpts.skip(1);
        assert forall|j: int| 0 <= j < i - 1 implies (#[trigger] rest[j]).0 != excerpt_id by {
            assert(rest[j] == excerpts[j + 1]);
        }
        lemma_first_range(rest, excerpt_id, i - 1);
    }
}

proof fn lemma_no_range(excerpts: Seq<(ExcerptId, Range<TextAnchor>)>, excerpt_id: ExcerptId)
    requires
        forall|j: int| 0 <= j < excerpts.len() ==> (#[trigger] excerpts[j]).0 != excerpt_id,
    ensures
        first_range(excerpts, excerpt_id) is None,
    decreases excerpts.len(),
{
    if excerpts.len() > 0 {
        assert(excerpts[0].0 != excerpt_id);
        let rest = excerpts.skip(1);
        assert forall|j: int| 0 <= j < rest.len() implies (#[trigger] rest[j]).0 != excerpt_id by {
            assert(rest[j] == excerpts[j + 1]);
        }
        lemma_no_range(rest, excerpt_id);
    }
}

/// The range of an excerpt is the first that its buffer lists for it.
pub proof fn law_range_is_the_first_listed(
    excerpts: Seq<(ExcerptId, Range<TextAnchor>)>,
    excerpt_id: ExcerptId,
)
    ensures
        forall|i: int|
            0 <= i < excerpts.len() && (#[trigger] excerpts[i]).0 == excerpt_id && (forall|j: int|
                0 <= j < i ==> (#[trigger] excerpts[j]).0 != excerpt_id) ==> first_range(
                excerpts,
                excerpt_id,
            ) == Some(excerpts[i].1),
        (forall|j: int| 0 <= j < excerpts.len() ==> (#[trigger] excerpts[j]).0 != excerpt_id)
            ==> first_range(excerpts, excerpt_id) is None,
{
    assert forall|i: int|
        0 <= i < excerpts.len() && (#[trigger] excerpts[i]).0 == excerpt_id && (forall|j: int|
            0 <= j < i ==> (#[trigger] excerpts[j]).0 != excerpt_id) implies first_range(
        excerpts,
        excerpt_id,
    ) == Some(excerpts[i].1) by {
        lemma_first_range(excerpts, excerpt_id, i);
    }
    if forall|j: int| 0 <= j < excerpts.len() ==> (#[trigger] excerpts[j]).0 != excerpt_id {
        lemma_no_range(excerpts, excerpt_id);
    }
}

/// Whether something of the excerpt is shown and its cached hints, if any, were neither asked
/// for later nor fetched for a later version of the buffer, nor for the same one with no fetch
/// forced now.
pub open spec fn needs_hints(
    cache: CacheView,
    excerpt: VisibleExcerpt,
    strategy: InvalidationStrategy,
    cache_version: usize,
) -> bool {
    let id = excerpt.excerpt_id;
    let shown_version = excerpt.buffer_version.values@;
    &&& excerpt.visible_range.start < excerpt.visible_range.end
    &&& cache.hints.contains_key(id) ==> {
        &&& cache.hints[id].version <= cache_version
        &&& !changed_since(cache.hints[id].buffer_version, shown_version)
        &&& changed_since(shown_version, cache.hints[id].buffer_version)
            || strategy == InvalidationStrategy::Forced
    }
}

/// An excerpt of which nothing is shown gets no task, whatever else holds of it.
pub proof fn law_hidden_excerpt_is_skipped(
    cache: CacheView,
    excerpt: VisibleExcerpt,
    running: bool,
    strategy: InvalidationStrategy,
    cache_version: usize,
)
    requires
        excerpt.visible_range.start >= excerpt.visible_range.end,
    ensures
        cache.step(excerpt, running, strategy, cache_version) == ExcerptStep::Skip,
{
}

/// An excerpt that is shown and needs no hints stops the refresh, whether or not its buffer has
/// it.
pub proof fn law_excerpt_with_hints_stops_the_refresh(
    cache: CacheView,
    excerpt: VisibleExcerpt,
    running: bool,
    strategy: InvalidationStrategy,
    cache_version: usize,
)
    requires
        excerpt.visible_range.start < excerpt.visible_range.end,
        !needs_hints(cache, excerpt, strategy, cache_version),
    ensures
        cache.step(excerpt, running, strategy, cache_version) == ExcerptStep::Stop,
{
}

/// An excerpt that needs hints and that its buffer does not have gets no task.
pub proof fn law_lost_excerpt_is_skipped(
    cache: CacheView,
    excerpt: VisibleExcerpt,
    running: bool,
    strategy: InvalidationStrategy,
    cache_version: usize,
)
    requires
        needs_hints(cache, excerpt, strategy, cache_version),
        forall|j: int|
            0 <= j < excerpt.buffer_excerpts@.len() ==> (
            #[trigger] excerpt.buffer_excerpts@[j]).0 != excerpt.excerpt_id,
    ensures
        cache.step(excerpt, running, strategy, cache_version) == ExcerptStep::Skip,
{
    law_range_is_the_first_listed(excerpt.buffer_excerpts@, excerpt.excerpt_id);
}

/// An excerpt that needs hints, and that its buffer lists first at place `i`, gets a task,
/// unless its present one runs, was not forced, and either the refresh is neither forced nor on
/// a conflict, or hints are cached and another task is to follow already. The task takes the
/// place of the present one, unless that one runs, was not forced, and the refresh is forced
/// where hints are cached; then it follows it. It asks for the excerpt as it is shown, with the
/// strategy and the version of the refresh.
pub proof fn law_excerpt_that_needs_hints_gets_a_task(
    cache: CacheView,
    excerpt: VisibleExcerpt,
    running: bool,
    strategy: InvalidationStrategy,
    cache_version: usize,
    i: int,
)
    requires
        needs_hints(cache, excerpt, strategy, cache_version),
        0 <= i < excerpt.buffer_excerpts@.len(),
        excerpt.buffer_excerpts@[i].0 == excerpt.excerpt_id,
        forall|j: int|
            0 <= j < i ==> (#[trigger] excerpt.buffer_excerpts@[j]).0 != excerpt.excerpt_id,
    ensures
        ({
            let id = excerpt.excerpt_id;
            let goes_on = cache.update_tasks.contains_key(id) && running
                && cache.update_tasks[id].current.0 != InvalidationStrategy::Forced;
            let has_hints = cache.hints.contains_key(id) && cache.hints[id].hints.len() > 0;
            let query = ExcerptQuery {
                buffer_id: excerpt.buffer_id,
                excerpt_id: id,
                dimensions: ExcerptDimensions {
                    excerpt_range_start: excerpt.buffer_excerpts@[i].1.start,
                    excerpt_range_end: excerpt.buffer_excerpts@[i].1.end,
                    excerpt_visible_range_start: excerpt.visible_range_start,
                    excerpt_visible_range_end: excerpt.visible_range_end,
                },
                cache_version,
                invalidate: strategy,
            };
            let replacing = ExcerptStep::Start(
                NewUpdateTask {
                    query,
                    follows_current: false,
                    has_cached_hints: cache.hints.contains_key(id),
                },
            );
            let following = ExcerptStep::Start(
                NewUpdateTask { query, follows_current: true, has_cached_hints: true },
            );
            let step = cache.step(excerpt, running, strategy, cache_version);
            &&& !goes_on ==> step == replacing
            &&& strategy == InvalidationStrategy::OnConflict ==> step == replacing
            &&& strategy == InvalidationStrategy::Forced && !has_hints ==> step == replacing
            &&& goes_on && strategy == InvalidationStrategy::Forced && has_hints ==> step == (
            if cache.update_tasks[id].pending_refresh is None {
                following
            } else {
                ExcerptStep::Skip
            })
            &&& goes_on && strategy == InvalidationStrategy::Never ==> step == ExcerptStep::Skip
        }),
{
    law_range_is_the_first_listed(excerpt.buffer_excerpts@, excerpt.excerpt_id);
}

/// A refresh goes along the excerpts: it takes the task that each asks for, passes those that
/// ask for none, and ends at the first that stops it or after the last.
pub proof fn law_refresh_goes_along_the_excerpts(
    cache: CacheView,
    excerpts: Seq<VisibleExcerpt>,
    running: Seq<bool>,
    strategy: InvalidationStrategy,
    cache_version: usize,
    from: int,
)
    requires
        0 <= from <= excerpts.len(),
    ensures
        ({
            let here = cache.new_tasks_from(excerpts, running, strategy, cache_version, from);
            let rest = cache.new_tasks_from(excerpts, running, strategy, cache_version, from + 1);
            if from == excerpts.len() {
                here.len() == 0
            } else {
                match cache.step(excerpts[from], running[from], strategy, cache_version) {
                    ExcerptStep::Skip => here == rest,
                    ExcerptStep::Stop => here.len() == 0,
                    ExcerptStep::Start(task) => here.len() == rest.len() + 1 && here[0] == task
                        && forall|n: int| 0 <= n < rest.len() ==> #[trigger] rest[n] == here[n + 1],
                }
            }
        }),
{
}

/// Whether a task runs is told by its channel and by that of the task that is to follow it:
/// those are asked, and it runs if the first says that it is open, or if there is a second that
/// says so.
pub proof fn law_running_is_told_by_the_channels(task: UpdateTask, running: bool)
    requires
        call_ensures(UpdateTask::is_running, (&task,), running),
    ensures
        task.pending_refresh is None ==> call_ensures(
            Receiver::<()>::is_closed,
            (&task.current.1.is_running_rx,),
            !running,
        ),
        task.pending_refresh matches Some(pending) ==> exists|closed: bool, pending_closed: bool|
            #[trigger] call_ensures(
                Receiver::<()>::is_closed,
                (&task.current.1.is_running_rx,),
                closed,
            ) && #[trigger] call_ensures(
                Receiver::<()>::is_closed,
                (&pending.is_running_rx,),
                pending_closed,
            ) && (running <==> !closed || !pending_closed),
{
}

/// A refresh goes by what the task of each excerpt tells.
pub proof fn law_refresh_asks_the_tasks(
    cache: CacheView,
    excerpts: Seq<VisibleExcerpt>,
    running: Seq<bool>,
    k: int,
)
    requires
        cache.told(excerpts, running),
        running.len() == excerpts.len(),
        0 <= k < excerpts.len(),
        cache.update_tasks.contains_key(excerpts[k].excerpt_id),
    ensures
        call_ensures(
            UpdateTask::is_running,
            (&cache.update_tasks[excerpts[k].excerpt_id],),
            running[k],
        ),
{
    assert(running[k] == running[k]);
}

/// A task runs while its channel is open, and while the channel of the task that is to follow
/// it is open; without such a task the second answer does not count.
pub proof fn law_task_runs_while_a_channel_is_open(
    task: UpdateTask,
    current_closed: bool,
    pending_closed: bool,
)
    ensures
        !current_closed ==> task.spec_runs_if(current_closed, pending_closed),
        current_closed && task.pending_refresh is None ==> !task.spec_runs_if(
            current_closed,
            pending_closed,
        ),
        current_closed && task.pending_refresh is Some ==> task.spec_runs_if(
            current_closed,
            pending_closed,
        ) == !pending_closed,
{
}

/// A refresh asks for the hints of every excerpt that is to be queried and has no task, whatever
/// the strategy and the version of the cache, and of every one whose task is from an earlier
/// version. Of one whose task is from the present version it asks only if it is forced or on a
/// conflict, and of one whose task is from a later version it never does. It asks for nothing
/// else, and for each excerpt as it was to be queried.
///
/// One that is forced or on a conflict ends the tasks of the excerpts that are not to be
/// queried; nothing else changes in the cache.
pub proof fn law_refresh_asks_for_what_has_no_task(
    before: CacheView,
    after: CacheView,
    queried: Map<ExcerptId, (u64, Range<usize>)>,
    asked: Map<ExcerptId, (u64, Range<usize>)>,
    strategy: InvalidationStrategy,
    id: ExcerptId,
)
    requires
        before.enabled,
        asked == queried.restrict(
            Set::new(|id: ExcerptId| before.wants(id, strategy.spec_invalidates())),
        ),
        after == before.refreshed(queried.dom(), strategy.spec_invalidates()),
    ensures
        asked.contains_key(id) ==> queried.contains_key(id) && asked[id] == queried[id],
        queried.contains_key(id) && !before.update_tasks.contains_key(id) ==> asked.contains_key(
            id,
        ),
        queried.contains_key(id) && before.update_tasks.contains_key(id) ==> {
            let task_version = before.update_tasks[id].current.1.version;
            &&& task_version < before.version ==> asked.contains_key(id)
            &&& task_version == before.version ==> (asked.contains_key(id) <==> strategy
                != InvalidationStrategy::Never)
            &&& task_version > before.version ==> !asked.contains_key(id)
        },
        strategy == InvalidationStrategy::Never ==> after == before,
        strategy != InvalidationStrategy::Never && !queried.contains_key(id)
            ==> !after.update_tasks.contains_key(id),
        queried.contains_key(id) ==> after.update_tasks.get(id) == before.update_tasks.get(id),
        after.hints == before.hints,
        after.version == before.version,
        after.enabled == before.enabled,
        after.allowed_hint_kinds == before.allowed_hint_kinds,
{
}

/// A refresh while no hints are shown leaves the cache as it is.
pub proof fn law_refresh_while_switched_off(
    before: CacheView,
    queried: Set<ExcerptId>,
    invalidates: bool,
)
    requires
        !before.enabled,
    ensures
        before.refreshed(queried, invalidates) == before,
{
}

/// A task that follows the current one of its excerpt leaves it as it is; any other takes its
/// place, with the strategy of its query and none to follow. The tasks of other excerpts stay,
/// and so does the rest of the cache.
pub proof fn law_task_is_noted_for_its_excerpt(
    before: CacheView,
    new_task: NewUpdateTask,
    spawned_task: SpawnedTask,
    other: ExcerptId,
)
    requires
        other != new_task.query.excerpt_id,
        new_task.follows_current ==> before.update_tasks.contains_key(new_task.query.excerpt_id),
    ensures
        ({
            let id = new_task.query.excerpt_id;
            let after = before.with_task(new_task, spawned_task);
            &&& after.update_tasks.contains_key(id)
            &&& new_task.follows_current ==> after.update_tasks[id].current
                == before.update_tasks[id].current && after.update_tasks[id].pending_refresh
                == Some(spawned_task)
            &&& !new_task.follows_current ==> after.update_tasks[id].current == (
                new_task.query.invalidate,
                spawned_task,
            ) && after.update_tasks[id].pending_refresh is None
            &&& after.update_tasks.get(other) == before.update_tasks.get(other)
            &&& after.hints == before.hints
            &&& after.version == before.version
            &&& after.enabled == before.enabled
            &&& after.allowed_hint_kinds == before.allowed_hint_kinds
        }),
{
}

/// A task asks for the visible range at first, alone or together with the others; for the
/// others alone after it; and for nothing at its end.
pub proof fn law_run_asks_for_its_ranges(run: UpdateRun)
    ensures
        ({
            let next = run.spec_next_ranges();
            let others = run.ranges.other_ranges@;
            &&& run.stage == RunStage::Everything ==> next.len() == others.len() + 1 && next[0]
                == run.ranges.visible_range && next.skip(1) == others
            &&& run.stage == RunStage::VisibleRange ==> next.len() == 1 && next[0]
                == run.ranges.visible_range
            &&& run.stage == RunStage::OtherRanges ==> next == others
            &&& run.stage == RunStage::Finished ==> next.len() == 0
        }),
{
    assert((seq![run.ranges.visible_range] + run.ranges.other_ranges@).skip(1)
        =~= run.ranges.other_ranges@);
}

proof fn lemma_failures(outcomes: Seq<FetchOutcome>, from: int)
    requires
        0 <= from <= outcomes.len() <= usize::MAX,
    ensures
        forall|n: int|
            0 <= n < failures_from(outcomes, from).len() ==> from <= (#[trigger] failures_from(
                outcomes,
                from,
            )[n]) < outcomes.len() && outcomes[failures_from(outcomes, from)[n] as int]
                == FetchOutcome::Failed,
        forall|n: int, m: int|
            0 <= n < m < failures_from(outcomes, from).len() ==> (#[trigger] failures_from(
                outcomes,
                from,
            )[n]) < (#[trigger] failures_from(outcomes, from)[m]),
        forall|i: int|
            from <= i < outcomes.len() && #[trigger] outcomes[i] == FetchOutcome::Failed
                ==> failures_from(outcomes, from).contains(i as usize),
    decreases outcomes.len() - from,
{
    if from < outcomes.len() {
        lemma_failures(outcomes, from + 1);
        let here = failures_from(outcomes, from);
        let rest = failures_from(outcomes, from + 1);
        if outcomes[from] == FetchOutcome::Failed {
            assert(here[0] == from as usize);
            assert forall|n: int| 1 <= n < here.len() implies #[trigger] here[n] == rest[n - 1] by {}
            assert forall|i: int|
                from <= i < outcomes.len() && #[trigger] outcomes[i]
                    == FetchOutcome::Failed implies here.contains(i as usize) by {
                if i > from {
                    let n = choose|n: int| 0 <= n < rest.len() && rest[n] == i as usize;
                    assert(here[n + 1] == i as usize);
                }
            }
        }
    }
}

/// All failures of the fetches that run at once are reported, each once and in their order, and
/// nothing else.
pub proof fn law_failures_are_reported(outcomes: Seq<FetchOutcome>)
    requires
        outcomes.len() <= usize::MAX,
    ensures
        ({
            let failures = failures_from(outcomes, 0);
            &&& forall|i: int|
                0 <= i < outcomes.len() ==> (failures.contains(i as usize) <==> #[trigger] outcomes[i]
                    == FetchOutcome::Failed)
            &&& forall|n: int|
                0 <= n < failures.len() ==> (#[trigger] failures[n]) < outcomes.len()
            &&& forall|n: int, m: int|
                0 <= n < m < failures.len() ==> (#[trigger] failures[n]) < (#[trigger] failures[m])
        }),
{
    lemma_failures(outcomes, 0);
}

/// Of the failures of a task that follows another, the first is reported, where there is one.
pub proof fn law_first_failure_is_reported(failures: Seq<usize>)
    ensures
        failures.len() == 0 ==> at_most_first(failures).len() == 0,
        failures.len() > 0 ==> at_most_first(failures).len() == 1 && at_most_first(failures)[0]
            == failures[0],
{
}

} // verus!
