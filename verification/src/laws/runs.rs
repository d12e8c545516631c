//! What holds of the tasks that fetch hints.

use vstd::prelude::*;

use crate::anchor::ExcerptId;
use crate::cache::CacheView;
use crate::query::InvalidationStrategy;
use crate::tasks::{
    first_range, spec_decide, up_to_date, ExcerptStep, NewUpdateTask, RunStage, SpawnedTask,
    TaskDecision, UpdateRun, UpdateTask, VisibleExcerpt,
};

verus! {

/// A task is made to follow another only where that one runs, none is to follow it yet, hints
/// are cached, and the fetch is forced.
pub proof fn law_follower_has_predecessor(
    cache: CacheView,
    excerpt: VisibleExcerpt,
    running: bool,
    strategy: InvalidationStrategy,
    cache_version: usize,
)
    ensures
        cache.step(excerpt, running, strategy, cache_version) matches ExcerptStep::Start(task)
            ==> {
            &&& task.query.excerpt_id == excerpt.excerpt_id
            &&& task.query.cache_version == cache_version
            &&& task.query.invalidate == strategy
            &&& task.follows_current ==> {
                &&& cache.update_tasks.contains_key(excerpt.excerpt_id)
                &&& cache.update_tasks[excerpt.excerpt_id].pending_refresh is None
                &&& running
                &&& strategy is Forced
                &&& cache.hints_of(excerpt.excerpt_id).len() > 0
                &&& task.has_cached_hints
            }
        },
{
}

/// A task that follows another asks for the visible range and then for the other ranges, and
/// so, over its stages, for the same ranges as a task that asks for all at once.
pub proof fn law_stages_cover_the_same_ranges(
    at_once: UpdateRun,
    visible_first: UpdateRun,
    others_then: UpdateRun,
)
    requires
        at_once.stage == RunStage::Everything,
        visible_first.stage == RunStage::VisibleRange,
        others_then.stage == RunStage::OtherRanges,
        visible_first.ranges == at_once.ranges,
        others_then.ranges == at_once.ranges,
    ensures
        at_once.spec_next_ranges() == visible_first.spec_next_ranges()
            + others_then.spec_next_ranges(),
{
}

/// A refresh of the excerpts that are shown: what their tasks told, and how hints are asked
/// for.
pub struct RefreshPass {
    pub cache: CacheView,
    pub excerpts: Seq<VisibleExcerpt>,
    pub running: Seq<bool>,
    pub strategy: InvalidationStrategy,
    pub cache_version: usize,
}

impl RefreshPass {
    /// What the excerpt `k` asks for.
    pub open spec fn step(self, k: int) -> ExcerptStep {
        self.cache.step(self.excerpts[k], self.running[k], self.strategy, self.cache_version)
    }

    /// The tasks that the excerpts from place `from` on ask for.
    pub open spec fn tasks_from(self, from: int) -> Seq<NewUpdateTask> {
        self.cache.new_tasks_from(
            self.excerpts,
            self.running,
            self.strategy,
            self.cache_version,
            from,
        )
    }

    /// The tasks that the excerpts ask for.
    pub open spec fn tasks(self) -> Seq<NewUpdateTask> {
        self.tasks_from(0)
    }

    /// Whether no excerpt from place `from` on stops the refresh before it comes to excerpt
    /// `k`.
    pub open spec fn reaches(self, from: int, k: int) -> bool {
        forall|j: int| from <= j < k ==> !(#[trigger] self.step(j) is Stop)
    }

    /// Whether each excerpt stands once among the excerpts.
    pub open spec fn excerpts_distinct(self) -> bool {
        forall|a: int, b: int|
            0 <= a < self.excerpts.len() && 0 <= b < self.excerpts.len() && a != b ==> (
            #[trigger] self.excerpts[a]).excerpt_id != (#[trigger] self.excerpts[b]).excerpt_id
    }

    /// What becomes of the task of excerpt `k`. It is kept where the refresh does not come to
    /// the excerpt, where nothing of it is shown, where its hints are up to date, and where its
    /// buffer does not have it any more.
    pub open spec fn decision(self, k: int) -> TaskDecision {
        let excerpt = self.excerpts[k];
        let id = excerpt.excerpt_id;
        if self.reaches(0, k) && excerpt.visible_range.start < excerpt.visible_range.end && !(
        self.cache.hints.contains_key(id) && up_to_date(
            self.cache.hints[id],
            excerpt.buffer_version@,
            self.strategy,
            self.cache_version,
        )) && first_range(excerpt.buffer_excerpts@, id) is Some {
            spec_decide(
                self.cache.update_tasks.get(id),
                self.running[k],
                self.strategy,
                self.cache.hints_of(id).len() == 0,
            )
        } else {
            TaskDecision::Keep
        }
    }

    /// The cache after the first `n` of the tasks have been started and noted, one after the
    /// other.
    pub open spec fn noted(self, spawned: Seq<SpawnedTask>, n: int) -> CacheView
        decreases n,
    {
        if n <= 0 {
            self.cache
        } else {
            self.noted(spawned, n - 1).with_task(self.tasks()[n - 1], spawned[n - 1])
        }
    }

    /// Whether task `n` of the refresh is for the excerpt.
    pub open spec fn is_for(self, n: int, excerpt_id: ExcerptId) -> bool {
        &&& 0 <= n < self.tasks().len()
        &&& self.tasks()[n].query.excerpt_id == excerpt_id
    }

    /// Whether the refresh has treated the task of excerpt `k` as decided: it is in the cache
    /// `after` as it was, or in its place stands the task that was started for the excerpt, or
    /// that one is to follow it.
    pub open spec fn treats_as_decided(
        self,
        after: CacheView,
        spawned: Seq<SpawnedTask>,
        k: int,
    ) -> bool {
        let id = self.excerpts[k].excerpt_id;
        match self.decision(k) {
            TaskDecision::Keep => after.update_tasks.get(id) == self.cache.update_tasks.get(id),
            TaskDecision::Replace => exists|n: int| #[trigger]
                self.is_for(n, id) && after.update_tasks.get(id) == Some(
                    UpdateTask { current: (self.strategy, spawned[n]), pending_refresh: None },
                ),
            TaskDecision::Follow => exists|n: int| #[trigger]
                self.is_for(n, id) && self.cache.update_tasks.contains_key(id)
                    && after.update_tasks.get(id) == Some(
                    UpdateTask {
                        pending_refresh: Some(spawned[n]),
                        ..self.cache.update_tasks[id]
                    },
                ),
        }
    }
}

proof fn lemma_tasks_of_excerpts(pass: RefreshPass, from: int)
    requires
        0 <= from <= pass.excerpts.len(),
        pass.excerpts_distinct(),
    ensures
        forall|n: int|
            0 <= n < pass.tasks_from(from).len() ==> exists|k: int|
                from <= k < pass.excerpts.len() && pass.reaches(from, k) && #[trigger] pass.step(k)
                    == ExcerptStep::Start(#[trigger] pass.tasks_from(from)[n]),
        forall|k: int|
            from <= k < pass.excerpts.len() && pass.reaches(from, k) && #[trigger] pass.step(
                k,
            ) is Start ==> pass.tasks_from(from).contains(pass.step(k)->Start_0),
        forall|n: int, m: int|
            0 <= n < m < pass.tasks_from(from).len() ==> (
            #[trigger] pass.tasks_from(from)[n]).query.excerpt_id != (#[trigger] pass.tasks_from(
                from,
            )[m]).query.excerpt_id,
    decreases pass.excerpts.len() - from,
{
    if from < pass.excerpts.len() {
        lemma_tasks_of_excerpts(pass, from + 1);
        let tasks = pass.tasks_from(from);
        let rest = pass.tasks_from(from + 1);
        let head = if pass.step(from) is Start {
            1int
        } else {
            0
        };
        if !(pass.step(from) is Stop) {
            assert(forall|n: int|
                head <= n < tasks.len() ==> #[trigger] tasks[n] == rest[n - head]);
        }
        assert forall|n: int| 0 <= n < tasks.len() implies exists|k: int|
            from <= k < pass.excerpts.len() && pass.reaches(from, k) && #[trigger] pass.step(k)
                == ExcerptStep::Start(#[trigger] tasks[n]) by {
            if n < head {
                assert(pass.step(from) == ExcerptStep::Start(tasks[n]));
                assert(pass.reaches(from, from));
            } else {
                let k = choose|k: int|
                    from + 1 <= k < pass.excerpts.len() && pass.reaches(from + 1, k)
                        && #[trigger] pass.step(k) == ExcerptStep::Start(rest[n - head]);
                assert(pass.reaches(from, k));
            }
        }
        assert forall|k: int|
            from <= k < pass.excerpts.len() && pass.reaches(from, k) && #[trigger] pass.step(
                k,
            ) is Start implies tasks.contains(pass.step(k)->Start_0) by {
            if k == from {
                assert(tasks[0] == pass.step(from)->Start_0);
            } else {
                assert(!(pass.step(from) is Stop));
                assert(pass.reaches(from + 1, k));
                let n = choose|n: int| 0 <= n < rest.len() && rest[n] == pass.step(k)->Start_0;
                assert(tasks[n + head] == rest[n]);
            }
        }
        assert forall|n: int, m: int| 0 <= n < m < tasks.len() implies (
        #[trigger] tasks[n]).query.excerpt_id != (#[trigger] tasks[m]).query.excerpt_id by {
            if n < head {
                let k = choose|k: int|
                    from + 1 <= k < pass.excerpts.len() && pass.reaches(from + 1, k)
                        && #[trigger] pass.step(k) == ExcerptStep::Start(rest[m - head]);
                assert(pass.excerpts[from].excerpt_id != pass.excerpts[k].excerpt_id);
                assert(tasks[n].query.excerpt_id == pass.excerpts[from].excerpt_id);
                assert(tasks[m].query.excerpt_id == pass.excerpts[k].excerpt_id);
            } else {
                assert(rest[n - head].query.excerpt_id != rest[m - head].query.excerpt_id);
            }
        }
    }
}

proof fn lemma_noted(pass: RefreshPass, spawned: Seq<SpawnedTask>, n: int)
    requires
        pass.excerpts_distinct(),
        0 <= n <= pass.tasks().len(),
    ensures
        ({
            let after = pass.noted(spawned, n);
            &&& after == (CacheView { update_tasks: after.update_tasks, ..pass.cache })
            &&& forall|id: ExcerptId|
                (forall|m: int| 0 <= m < n ==> !#[trigger] pass.is_for(m, id))
                    ==> #[trigger] after.update_tasks.get(id) == pass.cache.update_tasks.get(id)
            &&& forall|m: int|
                0 <= m < n ==> {
                    let task = #[trigger] pass.tasks()[m];
                    let id = task.query.excerpt_id;
                    after.update_tasks.get(id) == Some(
                        pass.cache.with_task(task, spawned[m]).update_tasks[id],
                    )
                }
        }),
    decreases n,
{
    if n > 0 {
        lemma_noted(pass, spawned, n - 1);
        lemma_tasks_of_excerpts(pass, 0);
        let before = pass.noted(spawned, n - 1);
        let after = pass.noted(spawned, n);
        let last = pass.tasks()[n - 1];
        let id = last.query.excerpt_id;
        assert forall|m: int| 0 <= m < n - 1 implies !#[trigger] pass.is_for(m, id) by {
            assert(pass.tasks_from(0)[m].query.excerpt_id != pass.tasks_from(
                0,
            )[n - 1].query.excerpt_id);
        }
        assert(before.update_tasks.get(id) == pass.cache.update_tasks.get(id));
        assert(pass.is_for(n - 1, id));
        if last.follows_current {
            lemma_follower(pass, n - 1);
        }
        assert forall|m: int| 0 <= m < n implies ({
            let task = #[trigger] pass.tasks()[m];
            after.update_tasks.get(task.query.excerpt_id) == Some(
                pass.cache.with_task(task, spawned[m]).update_tasks[task.query.excerpt_id],
            )
        }) by {
            if m < n - 1 {
                assert(pass.tasks()[m].query.excerpt_id != id) by {
                    assert(!pass.is_for(m, id));
                }
                assert(before.update_tasks.get(pass.tasks()[m].query.excerpt_id) == Some(
                    pass.cache.with_task(
                        pass.tasks()[m],
                        spawned[m],
                    ).update_tasks[pass.tasks()[m].query.excerpt_id],
                ));
            }
        }
        assert forall|other: ExcerptId|
            (forall|m: int| 0 <= m < n ==> !#[trigger] pass.is_for(m, other)) implies
            #[trigger] after.update_tasks.get(other) == pass.cache.update_tasks.get(other) by {
            assert(!pass.is_for(n - 1, other));
            assert(before.update_tasks.get(other) == pass.cache.update_tasks.get(other));
        }
    }
}

/// A task of the refresh that is to follow another finds it in the cache.
proof fn lemma_follower(pass: RefreshPass, n: int)
    requires
        pass.excerpts_distinct(),
        0 <= n < pass.tasks().len(),
        pass.tasks()[n].follows_current,
    ensures
        pass.cache.update_tasks.contains_key(pass.tasks()[n].query.excerpt_id),
{
    lemma_tasks_of_excerpts(pass, 0);
    let k = choose|k: int|
        0 <= k < pass.excerpts.len() && pass.reaches(0, k) && #[trigger] pass.step(k)
            == ExcerptStep::Start(pass.tasks_from(0)[n]);
    law_follower_has_predecessor(
        pass.cache,
        pass.excerpts[k],
        pass.running[k],
        pass.strategy,
        pass.cache_version,
    );
}

/// A refresh whose tasks are started and noted one after the other does with the task of each
/// excerpt what is decided for it, and with no other: no task is lost, and nothing else of the
/// cache changes. A task that is to follow another finds it in the cache when it is noted.
pub proof fn law_refresh_does_what_is_decided(pass: RefreshPass, spawned: Seq<SpawnedTask>)
    requires
        pass.excerpts_distinct(),
        spawned.len() == pass.tasks().len(),
    ensures
        ({
            let after = pass.noted(spawned, spawned.len() as int);
            &&& forall|n: int|
                0 <= n < pass.tasks().len() && (#[trigger] pass.tasks()[n]).follows_current
                    ==> pass.noted(spawned, n).update_tasks.contains_key(
                    pass.tasks()[n].query.excerpt_id,
                )
            &&& forall|k: int|
                0 <= k < pass.excerpts.len() ==> #[trigger] pass.treats_as_decided(
                    after,
                    spawned,
                    k,
                )
            &&& forall|id: ExcerptId|
                (forall|k: int|
                    0 <= k < pass.excerpts.len() ==> (#[trigger] pass.excerpts[k]).excerpt_id != id)
                    ==> #[trigger] after.update_tasks.get(id) == pass.cache.update_tasks.get(id)
            &&& pass.cache.update_tasks.dom().subset_of(after.update_tasks.dom())
            &&& after == (CacheView { update_tasks: after.update_tasks, ..pass.cache })
        }),
{
    let len = spawned.len() as int;
    let after = pass.noted(spawned, len);
    lemma_tasks_of_excerpts(pass, 0);
    lemma_noted(pass, spawned, len);
    assert forall|n: int| 0 <= n < pass.tasks().len() && (
    #[trigger] pass.tasks()[n]).follows_current implies pass.noted(
        spawned,
        n,
    ).update_tasks.contains_key(pass.tasks()[n].query.excerpt_id) by {
        let id = pass.tasks()[n].query.excerpt_id;
        lemma_follower(pass, n);
        lemma_noted(pass, spawned, n);
        assert forall|m: int| 0 <= m < n implies !#[trigger] pass.is_for(m, id) by {
            assert(pass.tasks_from(0)[m].query.excerpt_id != pass.tasks_from(
                0,
            )[n].query.excerpt_id);
        }
        assert(pass.noted(spawned, n).update_tasks.get(id) == pass.cache.update_tasks.get(id));
    }
    assert forall|n: int, id: ExcerptId| #[trigger] pass.is_for(n, id) implies exists|k: int|
        0 <= k < pass.excerpts.len() && (#[trigger] pass.excerpts[k]).excerpt_id == id
            && pass.reaches(0, k) && pass.step(k) == ExcerptStep::Start(pass.tasks()[n]) by {
        let k = choose|k: int|
            0 <= k < pass.excerpts.len() && pass.reaches(0, k) && #[trigger] pass.step(k)
                == ExcerptStep::Start(pass.tasks_from(0)[n]);
        assert(pass.excerpts[k].excerpt_id == id);
    }
    assert forall|k: int| 0 <= k < pass.excerpts.len() implies #[trigger] pass.treats_as_decided(
        after,
        spawned,
        k,
    ) by {
        let id = pass.excerpts[k].excerpt_id;
        if pass.decision(k) is Keep {
            assert forall|m: int| 0 <= m < len implies !#[trigger] pass.is_for(m, id) by {
                if pass.is_for(m, id) {
                    let l = choose|l: int|
                        0 <= l < pass.excerpts.len() && (#[trigger] pass.excerpts[l]).excerpt_id
                            == id && pass.reaches(0, l) && pass.step(l) == ExcerptStep::Start(
                            pass.tasks()[m],
                        );
                    assert(l == k);
                }
            }
            assert(after.update_tasks.get(id) == pass.cache.update_tasks.get(id));
        } else {
            assert(pass.step(k) is Start);
            let task = pass.step(k)->Start_0;
            let n = choose|n: int|
                0 <= n < pass.tasks_from(0).len() && pass.tasks_from(0)[n] == task;
            assert(pass.tasks()[n] == task);
            assert(pass.is_for(n, id));
            assert(after.update_tasks.get(id) == Some(
                pass.cache.with_task(task, spawned[n]).update_tasks[id],
            ));
            if task.follows_current {
                lemma_follower(pass, n);
            }
        }
    }
    assert forall|id: ExcerptId|
        (forall|k: int|
            0 <= k < pass.excerpts.len() ==> (#[trigger] pass.excerpts[k]).excerpt_id != id) implies
        #[trigger] after.update_tasks.get(id) == pass.cache.update_tasks.get(id) by {
        assert forall|m: int| 0 <= m < len implies !#[trigger] pass.is_for(m, id) by {}
    }
    assert forall|id: ExcerptId| pass.cache.update_tasks.dom().contains(
        id,
    ) implies after.update_tasks.dom().contains(id) by {
        if exists|m: int| 0 <= m < len && #[trigger] pass.is_for(m, id) {
            let m = choose|m: int| 0 <= m < len && #[trigger] pass.is_for(m, id);
            assert(pass.tasks()[m].query.excerpt_id == id);
            assert(after.update_tasks.get(id) is Some);
        } else {
            assert(after.update_tasks.get(id) == pass.cache.update_tasks.get(id));
        }
    }
}

} // verus!
