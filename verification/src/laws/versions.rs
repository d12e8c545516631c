//! The version of the cache tells of every change.

use vstd::prelude::*;

use crate::anchor::{BufferSnapshot, ExcerptId, MultiBufferSnapshot};
use crate::cache::{CacheView, SettingsFlow};
use crate::clock::{changed_since, last_edit};
use crate::hint::{Inlay, InlayHintSettings};
use crate::tasks::{NewUpdateTask, SpawnedTask};
use crate::updates::{ExcerptHintsView, UpdateView};

verus! {

/// New settings raise the version by one if they change what is cached or what is shown, and
/// leave it as it is if they change neither.
pub proof fn law_settings_change_raises_version(
    before: CacheView,
    after: CacheView,
    flow: SettingsFlow,
    multi_buffer: &MultiBufferSnapshot,
    settings: InlayHintSettings,
    visible_hints: Seq<Inlay>,
)
    requires
        before.settings_change_to(after, flow, multi_buffer, settings, visible_hints),
    ensures
        flow matches SettingsFlow::Break(Some(_)) ==> after.version == before.version + 1,
        !(flow matches SettingsFlow::Break(Some(_))) ==> after.version == before.version
            && after.hints == before.hints,
{
}

/// New settings leave the cached hints alone, unless they switch hints off: then nothing is
/// cached any more, and what was shown is removed if anything was cached.
pub proof fn law_settings_change_keeps_or_clears_hints(
    before: CacheView,
    after: CacheView,
    flow: SettingsFlow,
    multi_buffer: &MultiBufferSnapshot,
    settings: InlayHintSettings,
    visible_hints: Seq<Inlay>,
)
    requires
        before.settings_change_to(after, flow, multi_buffer, settings, visible_hints),
    ensures
        after.enabled == settings.enabled,
        before.enabled && !settings.enabled ==> after.hints == Map::<
            ExcerptId,
            ExcerptHintsView,
        >::empty(),
        !(before.enabled && !settings.enabled) ==> after.hints == before.hints,
        flow is Continue <==> !before.enabled && settings.enabled,
{
}

/// The allowed kinds are those of the settings, except where hints are shown before and after
/// and nothing that is shown changes: then the cache stays as it is.
pub proof fn law_settings_change_sets_kinds(
    before: CacheView,
    after: CacheView,
    flow: SettingsFlow,
    multi_buffer: &MultiBufferSnapshot,
    settings: InlayHintSettings,
    visible_hints: Seq<Inlay>,
)
    requires
        before.settings_change_to(after, flow, multi_buffer, settings, visible_hints),
    ensures
        after.allowed_hint_kinds == settings.spec_enabled_inlay_hint_kinds() || (before.enabled
            && settings.enabled && flow == SettingsFlow::Break(None) && after == before),
{
}

/// Whether nothing in the cache is from a later version than its own.
pub open spec fn versions_bounded(cache: CacheView) -> bool {
    &&& forall|id: ExcerptId| #[trigger]
        cache.hints.contains_key(id) ==> cache.hints[id].version <= cache.version
    &&& forall|id: ExcerptId| #[trigger]
        cache.update_tasks.contains_key(id) ==> {
            &&& cache.update_tasks[id].current.1.version <= cache.version
            &&& cache.update_tasks[id].pending_refresh is Some
                ==> cache.update_tasks[id].pending_refresh->0.version <= cache.version
        }
}

/// New settings keep the versions of hints and tasks bounded by that of the cache.
pub proof fn law_settings_change_keeps_versions_bounded(
    before: CacheView,
    after: CacheView,
    flow: SettingsFlow,
    multi_buffer: &MultiBufferSnapshot,
    settings: InlayHintSettings,
    visible_hints: Seq<Inlay>,
)
    requires
        before.settings_change_to(after, flow, multi_buffer, settings, visible_hints),
        versions_bounded(before),
    ensures
        versions_bounded(after),
{
}

/// An update for a query of a past or the present version keeps the versions of hints and
/// tasks bounded by that of the cache.
pub proof fn law_update_keeps_versions_bounded(
    before: CacheView,
    after: CacheView,
    update: UpdateView,
    first_id: usize,
    buffer_snapshot: &BufferSnapshot,
)
    requires
        before.updates_to(after, update, first_id, buffer_snapshot),
        versions_bounded(before),
        update.cache_version <= before.version,
    ensures
        versions_bounded(after),
{
}

/// A refresh keeps the versions of hints and tasks bounded by that of the cache.
pub proof fn law_refresh_keeps_versions_bounded(
    before: CacheView,
    queried: Set<ExcerptId>,
    invalidates: bool,
)
    requires
        versions_bounded(before),
    ensures
        versions_bounded(before.refreshed(queried, invalidates)),
{
}

/// A task for a query of a past or the present version keeps the versions of hints and tasks
/// bounded by that of the cache.
pub proof fn law_task_keeps_versions_bounded(
    before: CacheView,
    new_task: NewUpdateTask,
    spawned_task: SpawnedTask,
)
    requires
        versions_bounded(before),
        new_task.follows_current ==> before.update_tasks.contains_key(new_task.query.excerpt_id),
        spawned_task.version == new_task.query.cache_version,
        new_task.query.cache_version <= before.version,
    ensures
        versions_bounded(before.with_task(new_task, spawned_task)),
{
}

/// An update that follows another one for the same excerpt is taken over if its query is not
/// of an earlier version, and is dropped otherwise.
pub proof fn law_later_query_wins(
    before: CacheView,
    after: CacheView,
    first: UpdateView,
    second: UpdateView,
    first_id: usize,
    buffer_snapshot: &BufferSnapshot,
)
    requires
        before.updates_to(after, first, first_id, buffer_snapshot),
        second.excerpt_id == first.excerpt_id,
    ensures
        after.is_outdated(second) <==> second.cache_version < first.cache_version,
{
}

/// Where no task is from a later version, a refresh that invalidates asks for the hints of
/// every excerpt.
pub proof fn law_invalidating_refresh_wants_all(cache: CacheView, excerpt_id: ExcerptId)
    requires
        versions_bounded(cache),
    ensures
        cache.wants(excerpt_id, true),
{
}

/// A buffer has the same edits at two versions of which neither has changed since the other.
pub proof fn law_unchanged_versions_agree(a: Seq<u32>, b: Seq<u32>)
    ensures
        !changed_since(a, b) && !changed_since(b, a) <==> forall|replica: int| #[trigger]
            last_edit(a, replica) == #[trigger] last_edit(b, replica),
{
    if !changed_since(a, b) && !changed_since(b, a) {
        assert forall|replica: int| #[trigger] last_edit(a, replica) == #[trigger] last_edit(
            b,
            replica,
        ) by {
            assert(!(last_edit(a, replica) > last_edit(b, replica)));
            assert(!(last_edit(b, replica) > last_edit(a, replica)));
        }
    }
}

} // verus!
