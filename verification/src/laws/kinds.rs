//! What holds when other kinds of hints are allowed.

use vstd::prelude::*;

use crate::anchor::{BufferSnapshot, ExcerptId, MultiBufferSnapshot};
use crate::cache::of_kinds;
use crate::hint::{HintView, Inlay, InlayHintKind, InlayId};
use crate::order::{hint_rank, sorted_by_position};
use crate::sequences::{
    lemma_filter_none, lemma_filter_parts, lemma_filter_step, lemma_first_kept,
};
use crate::splice::{halt_from, halts_at, newly_allowed, KindsChange};
use crate::updates::hint_ids;

verus! {

/// Holds of the hints of a kind that was allowed before and is not any more.
pub open spec fn no_longer_allowed(
    old_kinds: Set<Option<InlayHintKind>>,
    new_kinds: Set<Option<InlayHintKind>>,
) -> spec_fn((InlayId, HintView)) -> bool {
    |hint: (InlayId, HintView)|
        old_kinds.contains(hint.1.kind) && !new_kinds.contains(hint.1.kind)
}

/// The inlays that show hints of an excerpt.
pub open spec fn inlays_of(
    hints: Seq<(InlayId, HintView)>,
    excerpt_id: ExcerptId,
    multi_buffer: &MultiBufferSnapshot,
) -> Seq<Inlay> {
    Seq::new(
        hints.len(),
        |i: int|
            Inlay {
                id: hints[i].0,
                position: multi_buffer.spec_anchor_in_excerpt(excerpt_id, hints[i].1.position),
            },
    )
}

/// The buffer of an excerpt, where the multi-buffer has it.
pub open spec fn buffer_of(multi_buffer: &MultiBufferSnapshot, excerpt_id: ExcerptId) -> Option<
    &BufferSnapshot,
> {
    if multi_buffer.excerpts@.contains_key(excerpt_id) {
        multi_buffer.spec_buffer(Some(multi_buffer.excerpts@[excerpt_id]))
    } else {
        None
    }
}

/// Whether the hints can be looked up: their buffer is there, and they are in the order of
/// their positions in it.
pub open spec fn can_look_up(
    hints: Seq<(InlayId, HintView)>,
    excerpt_id: ExcerptId,
    multi_buffer: &MultiBufferSnapshot,
) -> bool {
    buffer_of(multi_buffer, excerpt_id) is Some && sorted_by_position(
        hints,
        buffer_of(multi_buffer, excerpt_id)->0,
    )
}

/// The walk halts at the first hint at which it can.
pub(crate) proof fn lemma_halt(
    buffer: &BufferSnapshot,
    cached: Seq<(InlayId, HintView)>,
    from: int,
    to: int,
    shown: Inlay,
)
    requires
        0 <= from <= to < cached.len(),
        forall|i: int| from <= i < to ==> !halts_at(buffer, #[trigger] cached[i], shown),
        halts_at(buffer, cached[to], shown),
    ensures
        halt_from(buffer, cached, from, shown) == to,
    decreases to - from,
{
    if from < to {
        assert(!halts_at(buffer, cached[from], shown));
        lemma_halt(buffer, cached, from + 1, to, shown);
    }
}

/// After the first `n` inlays have been looked up, the walk has passed the hints up to the
/// last of theirs.
proof fn lemma_scan(
    change: KindsChange,
    cached: Seq<(InlayId, HintView)>,
    excerpt_id: ExcerptId,
    n: int,
) -> (passed: int)
    requires
        hint_ids(cached).no_duplicates(),
        cached.filter(of_kinds(change.old_kinds)).len() > 0 ==> can_look_up(
            cached,
            excerpt_id,
            &change.multi_buffer,
        ),
        0 <= n <= cached.filter(of_kinds(change.old_kinds)).len(),
    ensures
        0 <= passed <= cached.len(),
        cached.take(passed).filter(of_kinds(change.old_kinds)) == cached.filter(
            of_kinds(change.old_kinds),
        ).take(n),
        ({
            let shown = inlays_of(
                cached.filter(of_kinds(change.old_kinds)),
                excerpt_id,
                &change.multi_buffer,
            );
            let scan = change.scan(cached, shown.take(n));
            &&& scan.passed == passed
            &&& scan.to_remove == hint_ids(
                cached.take(passed).filter(no_longer_allowed(change.old_kinds, change.new_kinds)),
            )
            &&& scan.to_insert == cached.take(passed).filter(
                newly_allowed(change.old_kinds, change.new_kinds),
            )
        }),
    decreases n,
{
    let allowed = of_kinds(change.old_kinds);
    let gone = no_longer_allowed(change.old_kinds, change.new_kinds);
    let fresh = newly_allowed(change.old_kinds, change.new_kinds);
    let kept = cached.filter(allowed);
    let shown = inlays_of(kept, excerpt_id, &change.multi_buffer);
    if n == 0 {
        reveal(Seq::filter);
        assert(cached.take(0).filter(allowed) =~= kept.take(0));
        assert(hint_ids(cached.take(0).filter(gone)) =~= Seq::empty());
        assert(cached.take(0).filter(fresh) =~= Seq::empty());
        0
    } else {
        let before = lemma_scan(change, cached, excerpt_id, n - 1);
        let scan_before = change.scan(cached, shown.take(n - 1));
        assert(shown.take(n).drop_last() =~= shown.take(n - 1));
        let inlay = shown.take(n).last();
        assert(inlay == shown[n - 1]);
        // The next hint of an allowed kind is the one that the inlay shows.
        lemma_filter_parts(cached, allowed, before);
        let rest = cached.skip(before);
        assert(rest.filter(allowed).len() == kept.len() - (n - 1));
        let first = lemma_first_kept(rest, allowed);
        assert(rest.filter(allowed)[0] == kept[n - 1]);
        let halt = before + first;
        assert(cached[halt] == rest[first]);
        assert(kept[n - 1] == cached[halt]);
        let buffer = buffer_of(&change.multi_buffer, excerpt_id)->0;
        assert(change.multi_buffer.spec_buffer(inlay.position.buffer_id) == Some(buffer));
        assert forall|i: int| before <= i < halt implies !halts_at(
            buffer,
            #[trigger] cached[i],
            inlay,
        ) by {
            assert(hint_ids(cached)[i] != hint_ids(cached)[halt]);
            assert(hint_rank(buffer, cached[i]) <= hint_rank(buffer, cached[halt]));
        }
        lemma_halt(buffer, cached, before, halt, inlay);
        let passed = halt + 1;
        // What lies between holds no hint of an allowed kind.
        let between = cached.subrange(before, halt);
        assert forall|i: int| 0 <= i < between.len() implies !allowed(#[trigger] between[i])
            && !gone(between[i]) by {
            assert(between[i] == rest[i]);
        }
        lemma_filter_none(between, allowed);
        lemma_filter_none(between, gone);
        assert(cached.take(halt) =~= cached.take(before) + between);
        Seq::filter_distributes_over_add(cached.take(before), between, allowed);
        Seq::filter_distributes_over_add(cached.take(before), between, gone);
        Seq::filter_distributes_over_add(cached.take(before), between, fresh);
        lemma_filter_step(cached, allowed, halt);
        lemma_filter_step(cached, gone, halt);
        lemma_filter_step(cached, fresh, halt);
        assert(cached.take(passed).filter(allowed) =~= kept.take(n));
        let scan = change.scan(cached, shown.take(n));
        assert(scan.to_remove =~= hint_ids(cached.take(passed).filter(gone)));
        assert(scan.to_insert =~= cached.take(passed).filter(fresh));
        passed
    }
}

/// Where the editor shows the cached hints of the allowed kinds of an excerpt, in their
/// order, a change of the allowed kinds removes those whose kind is not allowed any more, and
/// inserts those whose kind is allowed now and was not before.
pub proof fn law_kinds_change_in_excerpt(change: KindsChange, excerpt_id: ExcerptId)
    requires
        change.hints.contains_key(excerpt_id),
        ({
            let cached = change.hints[excerpt_id].hints;
            let allowed = cached.filter(of_kinds(change.old_kinds));
            &&& hint_ids(cached).no_duplicates()
            &&& change.shown_in(excerpt_id) == inlays_of(allowed, excerpt_id, &change.multi_buffer)
            &&& allowed.len() > 0 ==> can_look_up(cached, excerpt_id, &change.multi_buffer)
        }),
    ensures
        change.removed_in(excerpt_id) == hint_ids(
            change.hints[excerpt_id].hints.filter(
                no_longer_allowed(change.old_kinds, change.new_kinds),
            ),
        ),
        change.inserted_in(excerpt_id) == change.hints[excerpt_id].hints.filter(
            newly_allowed(change.old_kinds, change.new_kinds),
        ),
{
    let cached = change.hints[excerpt_id].hints;
    let allowed = of_kinds(change.old_kinds);
    let gone = no_longer_allowed(change.old_kinds, change.new_kinds);
    let fresh = newly_allowed(change.old_kinds, change.new_kinds);
    let kept = cached.filter(allowed);
    let shown = inlays_of(kept, excerpt_id, &change.multi_buffer);
    let passed = lemma_scan(change, cached, excerpt_id, kept.len() as int);
    assert(shown.take(kept.len() as int) =~= shown);
    assert(kept.take(kept.len() as int) =~= kept);
    lemma_filter_parts(cached, allowed, passed);
    lemma_filter_parts(cached, gone, passed);
    lemma_filter_parts(cached, fresh, passed);
    let rest = cached.skip(passed);
    assert(rest.filter(allowed).len() == 0);
    assert forall|i: int| 0 <= i < rest.len() implies !gone(#[trigger] rest[i]) by {
        if allowed(rest[i]) {
            rest.lemma_filter_contains(allowed, i);
        }
    }
    lemma_filter_none(rest, gone);
    assert(cached.take(passed).filter(gone) + rest.filter(gone) =~= cached.take(passed).filter(
        gone,
    ));
    assert(cached.subrange(passed, cached.len() as int) =~= rest);
}

} // verus!
