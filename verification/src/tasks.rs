//! The tasks that keep the hints of the excerpts up to date.

use std::ops::Range;

use smol::channel::Receiver;
use vstd::prelude::*;

use crate::anchor::{ExcerptId, TextAnchor};
use crate::clock::{changed_since, Global};
use crate::query::{ExcerptDimensions, ExcerptQuery, HintFetchRanges, InvalidationStrategy};
use crate::updates::ExcerptHintsView;

verus! {

/// The receiving end of a channel of `smol`.
#[verifier::external_type_specification]
#[verifier::external_body]
#[verifier::reject_recursive_types(T)]
pub struct ExReceiver<T>(smol::channel::Receiver<T>);

/// A task of `smol`, which is cancelled when its handle is dropped.
#[verifier::external_type_specification]
#[verifier::external_body]
#[verifier::reject_recursive_types(T)]
#[verifier::reject_recursive_types(M)]
pub struct ExTask<T, M>(smol::Task<T, M>);

/// `smol::channel::Receiver::is_closed`, which tells whether the channel is closed by now.
///
/// Nothing is claimed of the answer: it depends on whether the task at the other end still
/// holds its sender.
pub assume_specification<T>[ smol::channel::Receiver::<T>::is_closed ](
    receiver: &smol::channel::Receiver<T>,
) -> (closed: bool);

/// A task that has been started.
pub struct SpawnedTask {
    /// The version that the cache had when the task was asked for.
    pub version: usize,
    /// Closes when the task ends.
    pub is_running_rx: Receiver<()>,
    /// The task itself, which ends early when this is dropped.
    pub task: smol::Task<(), ()>,
}

/// A task that has been started for `query`.
pub fn new_update_task(
    query: &ExcerptQuery,
    is_running_rx: Receiver<()>,
    task: smol::Task<(), ()>,
) -> (spawned: SpawnedTask)
    ensures
        spawned == (SpawnedTask { version: query.cache_version, is_running_rx, task }),
{
    SpawnedTask { version: query.cache_version, is_running_rx, task }
}

/// The task of an excerpt, and the one that is to follow it.
pub struct UpdateTask {
    pub current: (InvalidationStrategy, SpawnedTask),
    pub pending_refresh: Option<SpawnedTask>,
}

impl UpdateTask {
    /// The task of an excerpt, with none to follow it.
    pub fn new(invalidation_strategy: InvalidationStrategy, spawned_task: SpawnedTask) -> (task:
        Self)
        ensures
            task.current == (invalidation_strategy, spawned_task),
            task.pending_refresh is None,
    {
        UpdateTask { current: (invalidation_strategy, spawned_task), pending_refresh: None }
    }

    /// Whether a task runs if the channels of the two are closed or not.
    pub open spec fn spec_runs_if(&self, current_closed: bool, pending_closed: bool) -> bool {
        !current_closed || (self.pending_refresh is Some && !pending_closed)
    }

    /// Whether a task runs if the channels of the two are closed or not.
    pub fn runs_if(&self, current_closed: bool, pending_closed: bool) -> (runs: bool)
        ensures
            runs == self.spec_runs_if(current_closed, pending_closed),
    {
        !current_closed || (self.pending_refresh.is_some() && !pending_closed)
    }

    /// Whether the channel of the task, asked whether it is closed, can have answered
    /// `current_closed`, and that of the task that is to follow it `pending_closed`.
    pub open spec fn answered(&self, current_closed: bool, pending_closed: bool) -> bool {
        &&& call_ensures(
            Receiver::<()>::is_closed,
            (&self.current.1.is_running_rx,),
            current_closed,
        )
        &&& self.pending_refresh is Some ==> call_ensures(
            Receiver::<()>::is_closed,
            (&self.pending_refresh->0.is_running_rx,),
            pending_closed,
        )
    }

    /// Whether the task or the one that is to follow it runs, as their channels tell.
    pub fn is_running(&self) -> (running: bool)
        ensures
            exists|current_closed: bool, pending_closed: bool| #[trigger]
                self.answered(current_closed, pending_closed) && running == self.spec_runs_if(
                    current_closed,
                    pending_closed,
                ),
    {
        let current_closed = self.current.1.is_running_rx.is_closed();
        let pending_closed = match &self.pending_refresh {
            Some(task) => task.is_running_rx.is_closed(),
            None => true,
        };
        assert(self.answered(current_closed, pending_closed));
        self.runs_if(current_closed, pending_closed)
    }

    /// The version that the cache had when the task was asked for.
    pub fn cache_version(&self) -> (version: usize)
        ensures
            version == self.current.1.version,
    {
        self.current.1.version
    }

    /// The strategy that the task was asked for with.
    pub fn invalidation_strategy(&self) -> (strategy: InvalidationStrategy)
        ensures
            strategy == self.current.0,
    {
        self.current.0
    }
}

/// What becomes of the task of an excerpt.
#[derive(Debug, Clone, Copy, PartialEq, Eq, Structural)]
pub enum TaskDecision {
    /// A new task takes its place.
    Replace,
    /// A new task follows it.
    Follow,
    /// It goes on, and no task is started.
    Keep,
}

/// What becomes of the task of an excerpt when its hints are asked for anew.
///
/// A task that does not run is replaced. One that runs is replaced if it was forced, if the
/// new one comes of a conflict, or if the new one is forced and nothing is cached yet. A
/// forced one follows it where hints are cached and none is to follow yet.
pub open spec fn spec_decide(
    task: Option<UpdateTask>,
    running: bool,
    strategy: InvalidationStrategy,
    cache_is_empty: bool,
) -> TaskDecision {
    match task {
        Some(task) => if !running || task.current.0 is Forced || strategy is OnConflict {
            TaskDecision::Replace
        } else if strategy is Forced {
            if cache_is_empty {
                TaskDecision::Replace
            } else if task.pending_refresh is None {
                TaskDecision::Follow
            } else {
                TaskDecision::Keep
            }
        } else {
            TaskDecision::Keep
        },
        None => TaskDecision::Replace,
    }
}

/// What becomes of the task of an excerpt when its hints are asked for anew.
pub fn decide(
    task: Option<&UpdateTask>,
    running: bool,
    strategy: InvalidationStrategy,
    cache_is_empty: bool,
) -> (decision: TaskDecision)
    ensures
        decision == spec_decide(
            match task {
                Some(task) => Some(*task),
                None => None,
            },
            running,
            strategy,
            cache_is_empty,
        ),
{
    match task {
        Some(task) => {
            if running {
                match (task.invalidation_strategy(), strategy) {
                    (InvalidationStrategy::Forced, _) | (_, InvalidationStrategy::OnConflict) => {
                        TaskDecision::Replace
                    },
                    (_, InvalidationStrategy::Forced) => {
                        if cache_is_empty {
                            TaskDecision::Replace
                        } else if task.pending_refresh.is_none() {
                            TaskDecision::Follow
                        } else {
                            TaskDecision::Keep
                        }
                    },
                    _ => TaskDecision::Keep,
                }
            } else {
                TaskDecision::Replace
            }
        },
        None => TaskDecision::Replace,
    }
}

/// An excerpt that the editor shows, with what its buffer tells about it.
#[derive(Debug)]
pub struct VisibleExcerpt {
    pub excerpt_id: ExcerptId,
    /// The part of the buffer that is shown, in offsets.
    pub visible_range: Range<usize>,
    pub buffer_id: u64,
    pub buffer_version: Global,
    /// The anchor before the first offset that is shown.
    pub visible_range_start: TextAnchor,
    /// The anchor after the last offset that is shown.
    pub visible_range_end: TextAnchor,
    /// The excerpts of the buffer, with their ranges.
    pub buffer_excerpts: Vec<(ExcerptId, Range<TextAnchor>)>,
}

/// A task that is to be started.
#[derive(Debug, Clone, Copy, PartialEq, Eq, Structural)]
pub struct NewUpdateTask {
    pub query: ExcerptQuery,
    /// Whether the task follows the current one of its excerpt. If not, it takes its place.
    pub follows_current: bool,
    /// Whether hints are cached for the excerpt, with which fetched hints are compared.
    pub has_cached_hints: bool,
}

/// What an excerpt asks for when its hints are asked for anew.
#[derive(Debug, Clone, Copy, PartialEq, Eq, Structural)]
pub enum ExcerptStep {
    /// No task for this excerpt.
    Skip,
    /// No task for this excerpt, nor for any after it.
    Stop,
    /// A task.
    Start(NewUpdateTask),
}

/// The range that `excerpts` names first for the excerpt.
pub open spec fn first_range(
    excerpts: Seq<(ExcerptId, Range<TextAnchor>)>,
    excerpt_id: ExcerptId,
) -> Option<Range<TextAnchor>>
    decreases excerpts.len(),
{
    if excerpts.len() == 0 {
        None
    } else if excerpts[0].0 == excerpt_id {
        Some(excerpts[0].1)
    } else {
        first_range(excerpts.skip(1), excerpt_id)
    }
}

/// Whether hints that are cached make another fetch needless: they were asked for later, or
/// for a later version of the buffer, or for the same one and no fetch is forced.
pub open spec fn up_to_date(
    cached: ExcerptHintsView,
    buffer_version: Seq<u32>,
    strategy: InvalidationStrategy,
    cache_version: usize,
) -> bool {
    ||| cached.version > cache_version
    ||| changed_since(cached.buffer_version, buffer_version)
    ||| !changed_since(buffer_version, cached.buffer_version) && !(strategy is Forced)
}

impl VisibleExcerpt {
    /// The query for the hints of the excerpt, whose full range is `range`.
    pub open spec fn query(
        &self,
        range: Range<TextAnchor>,
        strategy: InvalidationStrategy,
        cache_version: usize,
    ) -> ExcerptQuery {
        ExcerptQuery {
            buffer_id: self.buffer_id,
            excerpt_id: self.excerpt_id,
            dimensions: ExcerptDimensions {
                excerpt_range_start: range.start,
                excerpt_range_end: range.end,
                excerpt_visible_range_start: self.visible_range_start,
                excerpt_visible_range_end: self.visible_range_end,
            },
            cache_version,
            invalidate: strategy,
        }
    }

    /// What the excerpt asks for.
    ///
    /// An excerpt of which nothing is shown, or that its buffer does not have any more, is
    /// skipped. Hints that are up to date stop the whole refresh.
    pub open spec fn spec_step(
        &self,
        cached: Option<ExcerptHintsView>,
        task: Option<UpdateTask>,
        running: bool,
        strategy: InvalidationStrategy,
        cache_version: usize,
    ) -> ExcerptStep {
        if self.visible_range.start >= self.visible_range.end {
            ExcerptStep::Skip
        } else if cached is Some && up_to_date(
            cached->0,
            self.buffer_version@,
            strategy,
            cache_version,
        ) {
            ExcerptStep::Stop
        } else {
            match first_range(self.buffer_excerpts@, self.excerpt_id) {
                Some(range) => {
                    let decision = spec_decide(
                        task,
                        running,
                        strategy,
                        cached is None || cached->0.hints.len() == 0,
                    );
                    if decision is Keep {
                        ExcerptStep::Skip
                    } else {
                        ExcerptStep::Start(
                            NewUpdateTask {
                                query: self.query(range, strategy, cache_version),
                                follows_current: decision is Follow,
                                has_cached_hints: cached is Some,
                            },
                        )
                    }
                },
                None => ExcerptStep::Skip,
            }
        }
    }

    /// The range that the buffer names first for the excerpt.
    pub fn full_range(&self) -> (range: Option<Range<TextAnchor>>)
        ensures
            range == first_range(self.buffer_excerpts@, self.excerpt_id),
    {
        let mut i: usize = 0;
        assert(self.buffer_excerpts@.skip(0) =~= self.buffer_excerpts@);
        while i < self.buffer_excerpts.len()
            invariant
                i <= self.buffer_excerpts.len(),
                first_range(self.buffer_excerpts@, self.excerpt_id) == first_range(
                    self.buffer_excerpts@.skip(i as int),
                    self.excerpt_id,
                ),
            decreases self.buffer_excerpts.len() - i,
        {
            let entry = &self.buffer_excerpts[i];
            if entry.0 == self.excerpt_id {
                return Some(Range { start: entry.1.start, end: entry.1.end });
            }
            assert(self.buffer_excerpts@.skip(i as int).skip(1) =~= self.buffer_excerpts@.skip(
                i + 1,
            ));
            i = i + 1;
        }
        None
    }
}

/// What came of the fetch of the hints for a range.
#[derive(Debug, Clone, Copy, PartialEq, Eq, Structural)]
pub enum FetchOutcome {
    /// The fetched hints changed nothing.
    Unchanged,
    /// The fetched hints changed something.
    Updated,
    /// The hints could not be fetched.
    Failed,
}

/// How far a task has come.
#[derive(Debug, Clone, Copy, PartialEq, Eq, Structural)]
pub enum RunStage {
    /// It fetches the hints of all its ranges at once.
    Everything,
    /// It fetches the hints of the visible range first.
    VisibleRange,
    /// It fetches the hints of the other ranges, after the visible one.
    OtherRanges,
    /// It is at its end.
    Finished,
}

/// A task that fetches the hints of an excerpt.
#[derive(Debug)]
pub struct UpdateRun {
    pub stage: RunStage,
    pub ranges: HintFetchRanges,
}

/// The places of the failures among `outcomes` from place `from` on.
pub open spec fn failures_from(outcomes: Seq<FetchOutcome>, from: int) -> Seq<usize>
    decreases outcomes.len() - from,
{
    if from >= outcomes.len() {
        Seq::empty()
    } else if outcomes[from] is Failed {
        seq![from as usize] + failures_from(outcomes, from + 1)
    } else {
        failures_from(outcomes, from + 1)
    }
}

/// The first element of `s`, where it has one.
pub open spec fn at_most_first(s: Seq<usize>) -> Seq<usize> {
    if s.len() == 0 {
        s
    } else {
        s.take(1)
    }
}

fn failures(outcomes: &Vec<FetchOutcome>) -> (failed: Vec<usize>)
    ensures
        failed@ == failures_from(outcomes@, 0),
{
    let mut failed: Vec<usize> = Vec::new();
    let mut i: usize = 0;
    while i < outcomes.len()
        invariant
            i <= outcomes.len(),
            failed@ + failures_from(outcomes@, i as int) =~= failures_from(outcomes@, 0),
        decreases outcomes.len() - i,
    {
        if outcomes[i] == FetchOutcome::Failed {
            failed.push(i);
        }
        i = i + 1;
    }
    failed
}

impl UpdateRun {
    /// A task at its start. One that follows another fetches the visible range first; any
    /// other fetches all ranges at once.
    pub fn new(ranges: HintFetchRanges, follows_another: bool) -> (run: Self)
        ensures
            run.ranges == ranges,
            run.stage == (if follows_another {
                RunStage::VisibleRange
            } else {
                RunStage::Everything
            }),
    {
        let stage = if follows_another {
            RunStage::VisibleRange
        } else {
            RunStage::Everything
        };
        UpdateRun { stage, ranges }
    }

    /// The ranges whose hints the task fetches at once at its present stage.
    pub open spec fn spec_next_ranges(&self) -> Seq<Range<TextAnchor>> {
        match self.stage {
            RunStage::Everything => seq![self.ranges.visible_range]
                + self.ranges.other_ranges@,
            RunStage::VisibleRange => seq![self.ranges.visible_range],
            RunStage::OtherRanges => self.ranges.other_ranges@,
            RunStage::Finished => Seq::empty(),
        }
    }

    /// The ranges whose hints the task fetches at once at its present stage.
    pub fn next_ranges(&self) -> (ranges: Vec<Range<TextAnchor>>)
        ensures
            ranges@ == self.spec_next_ranges(),
    {
        let mut ranges: Vec<Range<TextAnchor>> = Vec::new();
        if self.stage == RunStage::Everything || self.stage == RunStage::VisibleRange {
            ranges.push(
                Range {
                    start: self.ranges.visible_range.start,
                    end: self.ranges.visible_range.end,
                },
            );
        }
        let ghost head = ranges@;
        if self.stage == RunStage::Everything || self.stage == RunStage::OtherRanges {
            let others = &self.ranges.other_ranges;
            let mut i: usize = 0;
            while i < others.len()
                invariant
                    i <= others.len(),
                    ranges@ =~= head + others@.take(i as int),
                decreases others.len() - i,
            {
                ranges.push(Range { start: others[i].start, end: others[i].end });
                i = i + 1;
            }
            assert(others@.take(others@.len() as int) =~= others@);
        }
        assert(ranges@ =~= self.spec_next_ranges());
        ranges
    }

    /// Takes what came of the fetches of the present stage, and goes on to the next one.
    /// Returns the places of the failures to report.
    ///
    /// The other ranges are fetched after the visible one only where that changed something.
    /// Of the failures among those other ranges only the first is reported.
    pub fn advance(&mut self, outcomes: &Vec<FetchOutcome>) -> (reported: Vec<usize>)
        ensures
            final(self).ranges == old(self).ranges,
            final(self).stage == (if old(self).stage is VisibleRange && outcomes@.len() > 0
                && outcomes@[0] is Updated {
                RunStage::OtherRanges
            } else {
                RunStage::Finished
            }),
            reported@ == (if old(self).stage is Everything {
                failures_from(outcomes@, 0)
            } else if old(self).stage is Finished {
                Seq::empty()
            } else {
                at_most_first(failures_from(outcomes@, 0))
            }),
    {
        let stage = self.stage;
        let mut reported: Vec<usize> = Vec::new();
        if stage != RunStage::Finished {
            reported = failures(outcomes);
        }
        if stage != RunStage::Everything && reported.len() > 0 {
            reported.truncate(1);
        }
        assert(stage is VisibleRange || stage is OtherRanges ==> reported@ =~= at_most_first(
            failures_from(outcomes@, 0),
        ));
        self.stage = if stage == RunStage::VisibleRange && outcomes.len() > 0 && outcomes[0]
            == FetchOutcome::Updated {
            RunStage::OtherRanges
        } else {
            RunStage::Finished
        };
        reported
    }
}

} // verus!
