//! What the editor has to insert and to remove when other kinds of hints are allowed.

use std::collections::HashMap;

use vstd::prelude::*;

use crate::anchor::{Anchor, BufferSnapshot, ExcerptId, MultiBufferSnapshot};
use crate::hint::{HintKinds, HintView, Inlay, InlayHint, InlayHintKind, InlayId};
use crate::maps::{contains_excerpt, keys_of};
use crate::order::{hint_rank, hint_views};
use crate::sequences::lemma_filter_step;
use crate::updates::{inlay_ids, CachedExcerptHints, ExcerptHintsView};

verus! {

broadcast use vstd::std_specs::hash::group_hash_axioms;

/// Inlays that an editor has to remove, and hints that it has to insert.
#[derive(Debug)]
pub struct InlaySplice {
    pub to_remove: Vec<InlayId>,
    pub to_insert: Vec<(Anchor, InlayId, InlayHint)>,
}

/// The mathematical value of an [`InlaySplice`].
#[verifier::ext_equal]
pub struct SpliceView {
    pub to_remove: Seq<InlayId>,
    pub to_insert: Seq<(Anchor, InlayId, HintView)>,
}

/// The mathematical value of hints to insert.
pub open spec fn insert_views(hints: Seq<(Anchor, InlayId, InlayHint)>) -> Seq<
    (Anchor, InlayId, HintView),
> {
    Seq::new(hints.len(), |i: int| (hints[i].0, hints[i].1, hints[i].2@))
}

impl View for InlaySplice {
    type V = SpliceView;

    open spec fn view(&self) -> SpliceView {
        SpliceView { to_remove: self.to_remove@, to_insert: insert_views(self.to_insert@) }
    }
}

impl SpliceView {
    /// Whether there is nothing to remove and nothing to insert.
    pub open spec fn is_empty(self) -> bool {
        self.to_remove.len() == 0 && self.to_insert.len() == 0
    }
}

impl Default for InlaySplice {
    /// The splice that changes nothing.
    fn default() -> (splice: Self)
        ensures
            splice@.is_empty(),
    {
        InlaySplice { to_remove: Vec::new(), to_insert: Vec::new() }
    }
}

/// The hints that are cached for each excerpt.
pub open spec fn excerpt_views(hints: Map<ExcerptId, CachedExcerptHints>) -> Map<
    ExcerptId,
    ExcerptHintsView,
> {
    Map::new(|id: ExcerptId| hints.contains_key(id), |id: ExcerptId| hints[id]@)
}

/// Hints of an excerpt, at their positions in the multi-buffer.
pub open spec fn anchored(
    hints: Seq<(InlayId, HintView)>,
    excerpt_id: ExcerptId,
    multi_buffer: &MultiBufferSnapshot,
) -> Seq<(Anchor, InlayId, HintView)> {
    Seq::new(
        hints.len(),
        |i: int|
            (
                multi_buffer.spec_anchor_in_excerpt(excerpt_id, hints[i].1.position),
                hints[i].0,
                hints[i].1,
            ),
    )
}

/// Holds of the inlays of an excerpt.
pub open spec fn in_excerpt(excerpt_id: ExcerptId) -> spec_fn(Inlay) -> bool {
    |inlay: Inlay| inlay.position.excerpt_id == excerpt_id
}

/// Holds of the hints of a kind that is allowed now and was not before.
pub open spec fn newly_allowed(
    old_kinds: Set<Option<InlayHintKind>>,
    new_kinds: Set<Option<InlayHintKind>>,
) -> spec_fn((InlayId, HintView)) -> bool {
    |hint: (InlayId, HintView)|
        !old_kinds.contains(hint.1.kind) && new_kinds.contains(hint.1.kind)
}

/// Whether the walk along the cached hints halts at `hint` when it looks for the hint that
/// `shown` shows: it is that hint, or it comes after it.
pub open spec fn halts_at(buffer: &BufferSnapshot, hint: (InlayId, HintView), shown: Inlay) -> bool {
    hint.0 == shown.id || hint_rank(buffer, hint) > buffer.rank(shown.position.text_anchor)
}

/// The first place at or after `from` at which the walk along the cached hints halts.
pub open spec fn halt_from(
    buffer: &BufferSnapshot,
    cached: Seq<(InlayId, HintView)>,
    from: int,
    shown: Inlay,
) -> int
    decreases cached.len() - from,
{
    if from >= cached.len() || halts_at(buffer, cached[from], shown) {
        from
    } else {
        halt_from(buffer, cached, from + 1, shown)
    }
}

/// What is known of an excerpt after some of its inlays have been looked up among its cached
/// hints.
#[verifier::ext_equal]
pub struct ExcerptScan {
    /// The number of cached hints that the walk has passed.
    pub passed: int,
    /// The inlays to remove.
    pub to_remove: Seq<InlayId>,
    /// The hints to insert.
    pub to_insert: Seq<(InlayId, HintView)>,
}

/// A change of the kinds of hints that are allowed.
pub struct KindsChange {
    pub hints: Map<ExcerptId, ExcerptHintsView>,
    pub multi_buffer: MultiBufferSnapshot,
    pub visible_hints: Seq<Inlay>,
    pub old_kinds: Set<Option<InlayHintKind>>,
    pub new_kinds: Set<Option<InlayHintKind>>,
}

impl KindsChange {
    /// The hints from `from` up to `to` that are of a newly allowed kind.
    pub open spec fn appearing(
        self,
        cached: Seq<(InlayId, HintView)>,
        from: int,
        to: int,
    ) -> Seq<(InlayId, HintView)> {
        cached.subrange(from, to).filter(newly_allowed(self.old_kinds, self.new_kinds))
    }

    /// The walk along the cached hints of an excerpt that looks up the hints shown by its
    /// inlays, one after the other.
    ///
    /// An inlay whose hint is found is removed if the kind of the hint is not allowed any
    /// more; one whose hint is not found is removed in any case; one whose buffer is gone is
    /// left alone. Hints of newly allowed kinds that the walk passes are inserted.
    pub open spec fn scan(
        self,
        cached: Seq<(InlayId, HintView)>,
        shown: Seq<Inlay>,
    ) -> ExcerptScan
        decreases shown.len(),
    {
        if shown.len() == 0 {
            ExcerptScan { passed: 0, to_remove: Seq::empty(), to_insert: Seq::empty() }
        } else {
            let before = self.scan(cached, shown.drop_last());
            let inlay = shown.last();
            match self.multi_buffer.spec_buffer(inlay.position.buffer_id) {
                Some(buffer) => {
                    let halt = halt_from(buffer, cached, before.passed, inlay);
                    let found = halt < cached.len() && cached[halt].0 == inlay.id;
                    ExcerptScan {
                        passed: if found {
                            halt + 1
                        } else {
                            halt
                        },
                        to_remove: if found && self.new_kinds.contains(cached[halt].1.kind) {
                            before.to_remove
                        } else {
                            before.to_remove.push(inlay.id)
                        },
                        to_insert: before.to_insert + self.appearing(cached, before.passed, halt),
                    }
                },
                None => before,
            }
        }
    }

    /// The inlays of an excerpt.
    pub open spec fn shown_in(self, excerpt_id: ExcerptId) -> Seq<Inlay> {
        self.visible_hints.filter(in_excerpt(excerpt_id))
    }

    /// The inlays of an excerpt to remove: all where nothing is cached for it.
    pub open spec fn removed_in(self, excerpt_id: ExcerptId) -> Seq<InlayId> {
        if self.hints.contains_key(excerpt_id) {
            self.scan(self.hints[excerpt_id].hints, self.shown_in(excerpt_id)).to_remove
        } else {
            inlay_ids(self.shown_in(excerpt_id))
        }
    }

    /// The cached hints of an excerpt to insert: those of newly allowed kinds that the walk
    /// passes, and those after it.
    pub open spec fn inserted_in(self, excerpt_id: ExcerptId) -> Seq<(InlayId, HintView)> {
        if self.hints.contains_key(excerpt_id) {
            let cached = self.hints[excerpt_id].hints;
            let scan = self.scan(cached, self.shown_in(excerpt_id));
            scan.to_insert + self.appearing(cached, scan.passed, cached.len() as int)
        } else {
            Seq::empty()
        }
    }

    /// The inlays to remove, excerpt by excerpt in the order of `walk`.
    pub open spec fn removed(self, walk: Seq<ExcerptId>) -> Seq<InlayId>
        decreases walk.len(),
    {
        if walk.len() == 0 {
            Seq::empty()
        } else {
            self.removed(walk.drop_last()) + self.removed_in(walk.last())
        }
    }

    /// The hints to insert, excerpt by excerpt in the order of `walk`.
    pub open spec fn inserted(self, walk: Seq<ExcerptId>) -> Seq<(Anchor, InlayId, HintView)>
        decreases walk.len(),
    {
        if walk.len() == 0 {
            Seq::empty()
        } else {
            self.inserted(walk.drop_last()) + anchored(
                self.inserted_in(walk.last()),
                walk.last(),
                &self.multi_buffer,
            )
        }
    }

    /// What the editor has to change, excerpt by excerpt in the order of `walk`.
    pub open spec fn splice(self, walk: Seq<ExcerptId>) -> SpliceView {
        SpliceView { to_remove: self.removed(walk), to_insert: self.inserted(walk) }
    }

    /// Whether an inlay shows a hint of the excerpt.
    pub open spec fn is_shown(self, excerpt_id: ExcerptId) -> bool {
        exists|i: int|
            0 <= i < self.visible_hints.len() && (
            #[trigger] self.visible_hints[i]).position.excerpt_id == excerpt_id
    }

    /// Whether `walk` names each excerpt that has cached hints or inlays once, and no other.
    pub open spec fn is_walk(self, walk: Seq<ExcerptId>) -> bool {
        &&& walk.no_duplicates()
        &&& forall|id: ExcerptId| #[trigger]
            walk.contains(id) <==> self.hints.contains_key(id) || self.is_shown(id)
    }
}

/// The mathematical value of a splice, where there is one.
pub open spec fn splice_view(splice: Option<InlaySplice>) -> Option<SpliceView> {
    match splice {
        Some(splice) => Some(splice@),
        None => None,
    }
}

/// The splice itself, or `None` where it changes nothing.
pub open spec fn unless_empty(splice: SpliceView) -> Option<SpliceView> {
    if splice.is_empty() {
        None
    } else {
        Some(splice)
    }
}

proof fn lemma_splice_is_empty(change: KindsChange, walk: Seq<ExcerptId>)
    ensures
        change.splice(walk).is_empty() <==> forall|i: int|
            0 <= i < walk.len() ==> change.removed_in(#[trigger] walk[i]).len() == 0
                && change.inserted_in(walk[i]).len() == 0,
    decreases walk.len(),
{
    if walk.len() > 0 {
        let rest = walk.drop_last();
        lemma_splice_is_empty(change, rest);
        if change.splice(rest).is_empty() {
            assert forall|i: int|
                0 <= i < rest.len() implies change.removed_in(#[trigger] walk[i]).len() == 0
                && change.inserted_in(walk[i]).len() == 0 by {
                assert(rest[i] == walk[i]);
            }
        } else {
            let i = choose|i: int|
                0 <= i < rest.len() && !(change.removed_in(#[trigger] rest[i]).len() == 0
                    && change.inserted_in(rest[i]).len() == 0);
            assert(walk[i] == rest[i]);
        }
        assert(walk[walk.len() - 1] == walk.last());
    }
}

/// Whether there is anything to change does not depend on the order of the excerpts.
pub(crate) proof fn lemma_walks_agree(
    change: KindsChange,
    walk: Seq<ExcerptId>,
    other: Seq<ExcerptId>,
)
    requires
        change.is_walk(walk),
        change.is_walk(other),
        change.splice(walk).is_empty(),
    ensures
        change.splice(other).is_empty(),
{
    lemma_splice_is_empty(change, walk);
    lemma_splice_is_empty(change, other);
    assert forall|i: int| 0 <= i < other.len() implies change.removed_in(#[trigger] other[i]).len()
        == 0 && change.inserted_in(other[i]).len() == 0 by {
        assert(other.contains(other[i]));
        assert(walk.contains(other[i]));
        let k = choose|k: int| 0 <= k < walk.len() && walk[k] == other[i];
        assert(change.removed_in(walk[k]).len() == 0);
    }
}

fn find_halt(
    buffer: &BufferSnapshot,
    cached: &Vec<(InlayId, InlayHint)>,
    from: usize,
    shown: Inlay,
) -> (halt: usize)
    requires
        from <= cached.len(),
    ensures
        from <= halt <= cached.len(),
        halt == halt_from(buffer, hint_views(cached@), from as int, shown),
{
    let ghost views = hint_views(cached@);
    let rank: u64 = buffer.rank(shown.position.text_anchor);
    let mut halt: usize = from;
    while halt < cached.len() && !(cached[halt].0 == shown.id || buffer.rank(
        cached[halt].1.position,
    ) > rank)
        invariant
            from <= halt <= cached.len(),
            views == hint_views(cached@),
            rank == buffer.rank(shown.position.text_anchor),
            halt_from(buffer, views, from as int, shown) == halt_from(
                buffer,
                views,
                halt as int,
                shown,
            ),
        decreases cached.len() - halt,
    {
        halt = halt + 1;
    }
    halt
}

/// Collects the hints from `from` up to `to` that are of a newly allowed kind.
fn collect_appearing(
    cached: &Vec<(InlayId, InlayHint)>,
    from: usize,
    to: usize,
    excerpt_id: ExcerptId,
    multi_buffer: &MultiBufferSnapshot,
    old_kinds: &HintKinds,
    new_kinds: &HintKinds,
    to_insert: &mut Vec<(Anchor, InlayId, InlayHint)>,
)
    requires
        from <= to <= cached.len(),
    ensures
        insert_views(final(to_insert)@) == insert_views(old(to_insert)@) + anchored(
            hint_views(cached@).subrange(from as int, to as int).filter(
                newly_allowed(old_kinds@, new_kinds@),
            ),
            excerpt_id,
            multi_buffer,
        ),
{
    let ghost keep = newly_allowed(old_kinds@, new_kinds@);
    let ghost part = hint_views(cached@).subrange(from as int, to as int);
    let ghost before = insert_views(to_insert@);
    let mut i: usize = from;
    proof {
        reveal(Seq::filter);
        assert(insert_views(to_insert@) =~= before + anchored(
            part.take(0).filter(keep),
            excerpt_id,
            multi_buffer,
        ));
    }
    while i < to
        invariant
            from <= i <= to <= cached.len(),
            keep == newly_allowed(old_kinds@, new_kinds@),
            part == hint_views(cached@).subrange(from as int, to as int),
            insert_views(to_insert@) == before + anchored(
                part.take(i - from).filter(keep),
                excerpt_id,
                multi_buffer,
            ),
        decreases to - i,
    {
        let entry = &cached[i];
        let ghost so_far = to_insert@;
        assert(part[i - from] == (entry.0, entry.1@));
        if !old_kinds.contains(entry.1.kind) && new_kinds.contains(entry.1.kind) {
            to_insert.push(
                (
                    multi_buffer.anchor_in_excerpt(excerpt_id, entry.1.position),
                    entry.0,
                    entry.1.clone(),
                ),
            );
        }
        proof {
            lemma_filter_step(part, keep, i - from);
            let kept = part.take(i - from).filter(keep);
            let hint = part[i - from];
            if keep(hint) {
                let anchor = multi_buffer.spec_anchor_in_excerpt(excerpt_id, hint.1.position);
                assert(insert_views(to_insert@) =~= insert_views(so_far).push(
                    (anchor, hint.0, hint.1),
                ));
                assert(anchored(kept.push(hint), excerpt_id, multi_buffer) =~= anchored(
                    kept,
                    excerpt_id,
                    multi_buffer,
                ).push((anchor, hint.0, hint.1)));
            }
            assert(insert_views(to_insert@) =~= before + anchored(
                part.take(i - from + 1).filter(keep),
                excerpt_id,
                multi_buffer,
            ));
        }
        i = i + 1;
    }
    assert(part.take(to - from) =~= part);
}

/// Looks up the inlays of an excerpt among its cached hints.
fn scan_excerpt(
    cached: &Vec<(InlayId, InlayHint)>,
    excerpt_id: ExcerptId,
    multi_buffer: &MultiBufferSnapshot,
    visible_hints: &[Inlay],
    old_kinds: &HintKinds,
    new_kinds: &HintKinds,
    Ghost(change): Ghost<KindsChange>,
) -> (found: (Vec<InlayId>, Vec<(Anchor, InlayId, InlayHint)>))
    requires
        change.multi_buffer == *multi_buffer,
        change.visible_hints == visible_hints@,
        change.old_kinds == old_kinds@,
        change.new_kinds == new_kinds@,
        change.hints.contains_key(excerpt_id),
        change.hints[excerpt_id].hints == hint_views(cached@),
    ensures
        found.0@ == change.removed_in(excerpt_id),
        insert_views(found.1@) == anchored(
            change.inserted_in(excerpt_id),
            excerpt_id,
            multi_buffer,
        ),
{
    let ghost views = hint_views(cached@);
    let ghost mine = in_excerpt(excerpt_id);
    let mut passed: usize = 0;
    let mut to_remove: Vec<InlayId> = Vec::new();
    let mut to_insert: Vec<(Anchor, InlayId, InlayHint)> = Vec::new();
    let mut i: usize = 0;
    proof {
        reveal(Seq::filter);
        assert(visible_hints@.take(0).filter(mine) =~= Seq::<Inlay>::empty());
        assert(insert_views(to_insert@) =~= anchored(Seq::empty(), excerpt_id, multi_buffer));
    }
    while i < visible_hints.len()
        invariant
            i <= visible_hints.len(),
            passed <= cached.len(),
            views == hint_views(cached@),
            mine == in_excerpt(excerpt_id),
            change.multi_buffer == *multi_buffer,
            change.old_kinds == old_kinds@,
            change.new_kinds == new_kinds@,
            ({
                let scan = change.scan(views, visible_hints@.take(i as int).filter(mine));
                &&& passed == scan.passed
                &&& to_remove@ == scan.to_remove
                &&& insert_views(to_insert@) == anchored(scan.to_insert, excerpt_id, multi_buffer)
            }),
        decreases visible_hints.len() - i,
    {
        let inlay = visible_hints[i];
        let ghost shown = visible_hints@.take(i as int).filter(mine);
        let ghost scan = change.scan(views, shown);
        proof {
            lemma_filter_step(visible_hints@, mine, i as int);
            assert(shown.push(inlay).drop_last() =~= shown);
        }
        if inlay.position.excerpt_id == excerpt_id {
            match multi_buffer.buffer(inlay.position.buffer_id) {
                Some(buffer) => {
                    let halt: usize = find_halt(buffer, cached, passed, inlay);
                    collect_appearing(
                        cached,
                        passed,
                        halt,
                        excerpt_id,
                        multi_buffer,
                        old_kinds,
                        new_kinds,
                        &mut to_insert,
                    );
                    assert(insert_views(to_insert@) =~= anchored(
                        scan.to_insert + change.appearing(views, passed as int, halt as int),
                        excerpt_id,
                        multi_buffer,
                    ));
                    if halt < cached.len() && cached[halt].0 == inlay.id {
                        if !new_kinds.contains(cached[halt].1.kind) {
                            to_remove.push(inlay.id);
                        }
                        passed = halt + 1;
                    } else {
                        to_remove.push(inlay.id);
                        passed = halt;
                    }
                },
                None => {},
            }
        }
        i = i + 1;
    }
    assert(visible_hints@.take(visible_hints@.len() as int) =~= visible_hints@);
    let ghost scan = change.scan(views, change.shown_in(excerpt_id));
    collect_appearing(
        cached,
        passed,
        cached.len(),
        excerpt_id,
        multi_buffer,
        old_kinds,
        new_kinds,
        &mut to_insert,
    );
    assert(insert_views(to_insert@) =~= anchored(
        change.inserted_in(excerpt_id),
        excerpt_id,
        multi_buffer,
    ));
    (to_remove, to_insert)
}

/// The ids of the inlays of an excerpt.
fn ids_in_excerpt(visible_hints: &[Inlay], excerpt_id: ExcerptId) -> (ids: Vec<InlayId>)
    ensures
        ids@ == inlay_ids(visible_hints@.filter(in_excerpt(excerpt_id))),
{
    let ghost mine = in_excerpt(excerpt_id);
    let mut ids: Vec<InlayId> = Vec::new();
    let mut i: usize = 0;
    proof {
        reveal(Seq::filter);
        assert(ids@ =~= inlay_ids(visible_hints@.take(0).filter(mine)));
    }
    while i < visible_hints.len()
        invariant
            i <= visible_hints.len(),
            mine == in_excerpt(excerpt_id),
            ids@ == inlay_ids(visible_hints@.take(i as int).filter(mine)),
        decreases visible_hints.len() - i,
    {
        let inlay = visible_hints[i];
        if inlay.position.excerpt_id == excerpt_id {
            ids.push(inlay.id);
        }
        proof {
            lemma_filter_step(visible_hints@, mine, i as int);
            assert(ids@ =~= inlay_ids(visible_hints@.take(i + 1).filter(mine)));
        }
        i = i + 1;
    }
    assert(visible_hints@.take(visible_hints@.len() as int) =~= visible_hints@);
    ids
}

/// The change of the allowed kinds from `old_kinds` to `new_kinds`.
pub open spec fn kinds_change(
    hints: Map<ExcerptId, CachedExcerptHints>,
    multi_buffer: &MultiBufferSnapshot,
    visible_hints: Seq<Inlay>,
    old_kinds: Set<Option<InlayHintKind>>,
    new_kinds: Set<Option<InlayHintKind>>,
) -> KindsChange {
    KindsChange {
        hints: excerpt_views(hints),
        multi_buffer: *multi_buffer,
        visible_hints,
        old_kinds,
        new_kinds,
    }
}

/// Names each excerpt that has cached hints or inlays once, those with cached hints in the
/// order in which the map happens to give them.
pub fn walk_excerpts(
    hints: &HashMap<ExcerptId, CachedExcerptHints>,
    visible_hints: &[Inlay],
) -> (walk: Vec<ExcerptId>)
    ensures
        walk@.no_duplicates(),
        forall|id: ExcerptId| #[trigger]
            walk@.contains(id) <==> hints@.contains_key(id) || exists|i: int|
                0 <= i < visible_hints@.len() && (
                #[trigger] visible_hints@[i]).position.excerpt_id == id,
{
    let mut walk = keys_of(hints);
    let mut i: usize = 0;
    while i < visible_hints.len()
        invariant
            i <= visible_hints.len(),
            walk@.no_duplicates(),
            forall|id: ExcerptId| #[trigger]
                walk@.contains(id) <==> hints@.contains_key(id) || exists|k: int|
                    0 <= k < i && (#[trigger] visible_hints@[k]).position.excerpt_id == id,
        decreases visible_hints.len() - i,
    {
        let id: ExcerptId = visible_hints[i].position.excerpt_id;
        let ghost so_far = walk@;
        if !contains_excerpt(&walk, id) {
            walk.push(id);
        }
        assert forall|other: ExcerptId| #[trigger]
            walk@.contains(other) <==> so_far.contains(other) || other == id by {
            if so_far.contains(other) {
                let k = choose|k: int| 0 <= k < so_far.len() && so_far[k] == other;
                assert(walk@[k] == other);
            }
            if !so_far.contains(id) {
                assert(walk@[so_far.len() as int] == id);
            }
        }
        assert(visible_hints@[i as int].position.excerpt_id == id);
        i = i + 1;
    }
    walk
}

/// What the editor has to change when `new_kinds` of hints are allowed in place of
/// `old_kinds`, excerpt by excerpt in the order of `walk`.
pub fn splice_along(
    hints: &HashMap<ExcerptId, CachedExcerptHints>,
    multi_buffer: &MultiBufferSnapshot,
    visible_hints: &[Inlay],
    old_kinds: &HintKinds,
    new_kinds: &HintKinds,
    walk: &Vec<ExcerptId>,
) -> (splice: Option<InlaySplice>)
    ensures
        splice_view(splice) == unless_empty(
            kinds_change(
                hints@,
                multi_buffer,
                visible_hints@,
                old_kinds@,
                new_kinds@,
            ).splice(walk@),
        ),
{
    let ghost change = kinds_change(
        hints@,
        multi_buffer,
        visible_hints@,
        old_kinds@,
        new_kinds@,
    );
    let mut to_remove: Vec<InlayId> = Vec::new();
    let mut to_insert: Vec<(Anchor, InlayId, InlayHint)> = Vec::new();
    let mut i: usize = 0;
    assert(insert_views(to_insert@) =~= change.inserted(walk@.take(0)));
    while i < walk.len()
        invariant
            i <= walk.len(),
            change == kinds_change(
                hints@,
                multi_buffer,
                visible_hints@,
                old_kinds@,
                new_kinds@,
            ),
            to_remove@ == change.removed(walk@.take(i as int)),
            insert_views(to_insert@) == change.inserted(walk@.take(i as int)),
        decreases walk.len() - i,
    {
        let excerpt_id: ExcerptId = walk[i];
        let ghost inserted = to_insert@;
        assert(walk@.take(i + 1).drop_last() =~= walk@.take(i as int));
        match hints.get(&excerpt_id) {
            Some(cached) => {
                let (mut removed_here, mut inserted_here) = scan_excerpt(
                    &cached.hints,
                    excerpt_id,
                    multi_buffer,
                    visible_hints,
                    old_kinds,
                    new_kinds,
                    Ghost(change),
                );
                let ghost here = inserted_here@;
                to_remove.append(&mut removed_here);
                to_insert.append(&mut inserted_here);
                assert(insert_views(to_insert@) =~= insert_views(inserted) + insert_views(here));
            },
            None => {
                let mut removed_here = ids_in_excerpt(visible_hints, excerpt_id);
                to_remove.append(&mut removed_here);
                assert(insert_views(to_insert@) =~= insert_views(inserted) + anchored(
                    change.inserted_in(excerpt_id),
                    excerpt_id,
                    multi_buffer,
                ));
            },
        }
        i = i + 1;
    }
    assert(walk@.take(walk@.len() as int) =~= walk@);
    if to_remove.len() == 0 && to_insert.len() == 0 {
        None
    } else {
        Some(InlaySplice { to_remove, to_insert })
    }
}

} // verus!
