//! Facts about sequences that several modules use.

use vstd::prelude::*;

verus! {

/// Filtering one element more appends that element, where the filter keeps it.
pub(crate) proof fn lemma_filter_step<A>(s: Seq<A>, keep: spec_fn(A) -> bool, i: int)
    requires
        0 <= i < s.len(),
    ensures
        s.take(i + 1).filter(keep) == (if keep(s[i]) {
            s.take(i).filter(keep).push(s[i])
        } else {
            s.take(i).filter(keep)
        }),
{
    reveal(Seq::filter);
    assert(s.take(i + 1).drop_last() =~= s.take(i));
    assert(s.take(i + 1).last() == s[i]);
}

/// A filter that keeps no element of `s` leaves nothing of it.
pub(crate) proof fn lemma_filter_none<A>(s: Seq<A>, keep: spec_fn(A) -> bool)
    requires
        forall|i: int| 0 <= i < s.len() ==> !keep(#[trigger] s[i]),
    ensures
        s.filter(keep) == Seq::<A>::empty(),
    decreases s.len(),
{
    reveal(Seq::filter);
    if s.len() > 0 {
        assert forall|i: int| 0 <= i < s.drop_last().len() implies !keep(
            #[trigger] s.drop_last()[i],
        ) by {
            assert(s.drop_last()[i] == s[i]);
        }
        lemma_filter_none(s.drop_last(), keep);
    } else {
        assert(s =~= Seq::<A>::empty());
    }
}

/// What a filter keeps of `s` begins with the first element of `s` that it keeps.
pub(crate) proof fn lemma_first_kept<A>(s: Seq<A>, keep: spec_fn(A) -> bool) -> (first: int)
    requires
        s.filter(keep).len() > 0,
    ensures
        0 <= first < s.len(),
        keep(s[first]),
        s.filter(keep)[0] == s[first],
        forall|i: int| 0 <= i < first ==> !keep(#[trigger] s[i]),
    decreases s.len(),
{
    reveal(Seq::filter);
    let rest = s.drop_last();
    if rest.filter(keep).len() > 0 {
        let first = lemma_first_kept(rest, keep);
        assert forall|i: int| 0 <= i < first implies !keep(#[trigger] s[i]) by {
            assert(rest[i] == s[i]);
        }
        first
    } else {
        assert forall|i: int| 0 <= i < s.len() - 1 implies !keep(#[trigger] s[i]) by {
            if keep(s[i]) {
                assert(rest[i] == s[i]);
                rest.lemma_filter_contains(keep, i);
            }
        }
        s.len() - 1
    }
}

/// A filter treats the parts of a sequence each by itself.
pub(crate) proof fn lemma_filter_parts<A>(s: Seq<A>, keep: spec_fn(A) -> bool, at: int)
    requires
        0 <= at <= s.len(),
    ensures
        s.filter(keep) == s.take(at).filter(keep) + s.skip(at).filter(keep),
{
    assert(s =~= s.take(at) + s.skip(at));
    Seq::filter_distributes_over_add(s.take(at), s.skip(at), keep);
}

/// A filter keeps the elements of which it holds, and no others.
pub(crate) proof fn lemma_filter_contains_iff<A>(s: Seq<A>, keep: spec_fn(A) -> bool, x: A)
    ensures
        s.filter(keep).contains(x) <==> s.contains(x) && keep(x),
{
    if s.filter(keep).contains(x) {
        s.lemma_filter_contains_rev(keep, x);
        let i = choose|i: int| 0 <= i < s.filter(keep).len() && s.filter(keep)[i] == x;
        s.lemma_filter_pred(keep, i);
    }
    if s.contains(x) && keep(x) {
        let i = choose|i: int| 0 <= i < s.len() && s[i] == x;
        s.lemma_filter_contains(keep, i);
    }
}

/// A concatenation has the elements of its parts.
pub(crate) proof fn lemma_concat_contains<A>(a: Seq<A>, b: Seq<A>, x: A)
    ensures
        (a + b).contains(x) <==> a.contains(x) || b.contains(x),
{
    if (a + b).contains(x) {
        let i = choose|i: int| 0 <= i < (a + b).len() && (a + b)[i] == x;
        if i < a.len() {
            assert(a[i] == x);
        } else {
            assert(b[i - a.len()] == x);
        }
    }
    if a.contains(x) {
        let i = choose|i: int| 0 <= i < a.len() && a[i] == x;
        assert((a + b)[i] == x);
    }
    if b.contains(x) {
        let i = choose|i: int| 0 <= i < b.len() && b[i] == x;
        assert((a + b)[a.len() + i] == x);
    }
}

/// What a filter keeps of a sequence is in the order of a key, if the elements that it keeps
/// are.
pub(crate) proof fn lemma_filter_increasing<A>(
    s: Seq<A>,
    keep: spec_fn(A) -> bool,
    key: spec_fn(A) -> int,
)
    requires
        forall|i: int, j: int|
            0 <= i < j < s.len() && keep(#[trigger] s[i]) && keep(#[trigger] s[j]) ==> key(s[i])
                < key(s[j]),
    ensures
        forall|i: int, j: int|
            0 <= i < j < s.filter(keep).len() ==> key(#[trigger] s.filter(keep)[i]) < key(
                #[trigger] s.filter(keep)[j],
            ),
    decreases s.len(),
{
    reveal(Seq::filter);
    if s.len() > 0 {
        let rest = s.drop_last();
        lemma_filter_increasing(rest, keep, key);
        let kept = rest.filter(keep);
        assert forall|i: int, j: int| 0 <= i < j < s.filter(keep).len() implies key(
            #[trigger] s.filter(keep)[i],
        ) < key(#[trigger] s.filter(keep)[j]) by {
            assert(s.filter(keep)[i] == kept[i]);
            if j < kept.len() {
                assert(s.filter(keep)[j] == kept[j]);
            } else {
                assert(kept.contains(kept[i]));
                lemma_filter_contains_iff(rest, keep, kept[i]);
                let k = choose|k: int| 0 <= k < rest.len() && rest[k] == kept[i];
                assert(s[k] == kept[i]);
                assert(s[s.len() - 1] == s.last());
            }
        }
    }
}

/// Two sequences of the same elements that are in the order of a key are one sequence.
pub(crate) proof fn lemma_same_order<A>(s: Seq<A>, t: Seq<A>, key: spec_fn(A) -> int)
    requires
        forall|i: int, j: int|
            0 <= i < j < s.len() ==> key(#[trigger] s[i]) < key(#[trigger] s[j]),
        forall|i: int, j: int|
            0 <= i < j < t.len() ==> key(#[trigger] t[i]) < key(#[trigger] t[j]),
        forall|x: A| #[trigger] s.contains(x) <==> t.contains(x),
    ensures
        s == t,
    decreases s.len(),
{
    if s.len() == 0 {
        if t.len() > 0 {
            assert(t.contains(t[0]));
            assert(s.contains(t[0]));
        }
        assert(s =~= t);
    } else {
        assert(s.contains(s.last()));
        assert(t.contains(s.last()));
        assert(t.contains(t.last()));
        assert(s.contains(t.last()));
        let i = choose|i: int| 0 <= i < t.len() && t[i] == s.last();
        let j = choose|j: int| 0 <= j < s.len() && s[j] == t.last();
        if i < t.len() - 1 {
            assert(key(t[i]) < key(t[t.len() - 1]));
            if j < s.len() - 1 {
                assert(key(s[j]) < key(s[s.len() - 1]));
            }
        }
        assert(s.last() == t.last());
        let a = s.drop_last();
        let b = t.drop_last();
        assert forall|x: A| #[trigger] a.contains(x) <==> b.contains(x) by {
            if a.contains(x) {
                let k = choose|k: int| 0 <= k < a.len() && a[k] == x;
                assert(s[k] == x);
                assert(key(s[k]) < key(s[s.len() - 1]));
                assert(s.contains(x));
                let l = choose|l: int| 0 <= l < t.len() && t[l] == x;
                assert(b[l] == x);
            }
            if b.contains(x) {
                let k = choose|k: int| 0 <= k < b.len() && b[k] == x;
                assert(t[k] == x);
                assert(key(t[k]) < key(t[t.len() - 1]));
                assert(t.contains(x));
                assert(s.contains(x));
                let l = choose|l: int| 0 <= l < s.len() && s[l] == x;
                assert(a[l] == x);
            }
        }
        lemma_same_order(a, b, key);
        assert(s =~= a.push(s.last()));
        assert(t =~= b.push(t.last()));
    }
}

/// Filters that agree on the elements of a sequence keep the same of it.
pub(crate) proof fn lemma_same_filter<A>(
    s: Seq<A>,
    keep: spec_fn(A) -> bool,
    other: spec_fn(A) -> bool,
)
    requires
        forall|i: int| 0 <= i < s.len() ==> keep(#[trigger] s[i]) == other(s[i]),
    ensures
        s.filter(keep) == s.filter(other),
    decreases s.len(),
{
    reveal(Seq::filter);
    if s.len() > 0 {
        let rest = s.drop_last();
        assert forall|i: int| 0 <= i < rest.len() implies keep(#[trigger] rest[i]) == other(
            rest[i],
        ) by {
            assert(rest[i] == s[i]);
        }
        lemma_same_filter(rest, keep, other);
        assert(s[s.len() - 1] == s.last());
    }
}

/// Elements that a filter keeps stay in their order.
pub(crate) proof fn lemma_filter_keeps_order<A>(
    s: Seq<A>,
    keep: spec_fn(A) -> bool,
    i: int,
    j: int,
) -> (places: (int, int))
    requires
        0 <= i < j < s.len(),
        keep(s[i]),
        keep(s[j]),
    ensures
        0 <= places.0 < places.1 < s.filter(keep).len(),
        s.filter(keep)[places.0] == s[i],
        s.filter(keep)[places.1] == s[j],
    decreases s.len(),
{
    reveal(Seq::filter);
    let rest = s.drop_last();
    if j < s.len() - 1 {
        lemma_filter_keeps_order(rest, keep, i, j)
    } else {
        assert(rest[i] == s[i]);
        lemma_filter_contains_iff(rest, keep, s[i]);
        let p = choose|p: int| 0 <= p < rest.filter(keep).len() && rest.filter(keep)[p] == s[i];
        (p, rest.filter(keep).len() as int)
    }
}

/// What a filter keeps stood in the same order before.
pub(crate) proof fn lemma_filter_had_order<A>(
    s: Seq<A>,
    keep: spec_fn(A) -> bool,
    p: int,
    q: int,
) -> (places: (int, int))
    requires
        0 <= p < q < s.filter(keep).len(),
    ensures
        0 <= places.0 < places.1 < s.len(),
        s[places.0] == s.filter(keep)[p],
        s[places.1] == s.filter(keep)[q],
    decreases s.len(),
{
    reveal(Seq::filter);
    let rest = s.drop_last();
    let kept = rest.filter(keep);
    if q < kept.len() {
        lemma_filter_had_order(rest, keep, p, q)
    } else {
        assert(kept.contains(kept[p]));
        lemma_filter_contains_iff(rest, keep, kept[p]);
        let i = choose|i: int| 0 <= i < rest.len() && rest[i] == kept[p];
        assert(s[i] == kept[p]);
        (i, s.len() - 1)
    }
}

/// To filter and then to map is to map and then to filter by what is mapped.
pub(crate) proof fn lemma_filter_then_map<A, B>(
    s: Seq<A>,
    keep: spec_fn(A) -> bool,
    f: spec_fn(A) -> B,
    keep_mapped: spec_fn(B) -> bool,
)
    requires
        forall|i: int| 0 <= i < s.len() ==> keep(#[trigger] s[i]) == keep_mapped(f(s[i])),
    ensures
        s.filter(keep).map_values(f) == s.map_values(f).filter(keep_mapped),
    decreases s.len(),
{
    reveal(Seq::filter);
    if s.len() == 0 {
        assert(s.filter(keep).map_values(f) =~= s.map_values(f).filter(keep_mapped));
    } else {
        let rest = s.drop_last();
        assert forall|i: int| 0 <= i < rest.len() implies keep(#[trigger] rest[i]) == keep_mapped(
            f(rest[i]),
        ) by {
            assert(rest[i] == s[i]);
        }
        lemma_filter_then_map(rest, keep, f, keep_mapped);
        assert(s.map_values(f).drop_last() =~= rest.map_values(f));
        assert(s[s.len() - 1] == s.last());
        assert(s.map_values(f).last() == f(s.last()));
        assert(s.filter(keep).map_values(f) =~= s.map_values(f).filter(keep_mapped));
    }
}

/// A filter makes no element stand twice.
pub(crate) proof fn lemma_filter_no_duplicates<A>(s: Seq<A>, keep: spec_fn(A) -> bool)
    requires
        s.no_duplicates(),
    ensures
        s.filter(keep).no_duplicates(),
    decreases s.len(),
{
    reveal(Seq::filter);
    if s.len() > 0 {
        let rest = s.drop_last();
        lemma_filter_no_duplicates(rest, keep);
        if rest.filter(keep).contains(s.last()) {
            lemma_filter_contains_iff(rest, keep, s.last());
            let i = choose|i: int| 0 <= i < rest.len() && rest[i] == s.last();
            assert(s[i] == s[s.len() - 1]);
        }
        assert forall|i: int, j: int|
            0 <= i < s.filter(keep).len() && 0 <= j < s.filter(keep).len() && i != j implies s.filter(
            keep,
        )[i] != s.filter(keep)[j] by {
            let f = rest.filter(keep);
            if keep(s.last()) {
                if i < f.len() {
                    assert(f.contains(f[i]));
                }
                if j < f.len() {
                    assert(f.contains(f[j]));
                }
            }
        }
    }
}

/// Nothing stands twice in a concatenation of parts with nothing in common.
pub(crate) proof fn lemma_concat_no_duplicates<A>(a: Seq<A>, b: Seq<A>)
    requires
        a.no_duplicates(),
        b.no_duplicates(),
        forall|x: A| #[trigger] a.contains(x) ==> !b.contains(x),
    ensures
        (a + b).no_duplicates(),
{
    let all = a + b;
    assert forall|i: int, j: int| 0 <= i < all.len() && 0 <= j < all.len() && i != j implies all[i]
        != all[j] by {
        if i < a.len() {
            assert(a.contains(all[i]));
        } else {
            assert(b[i - a.len()] == all[i]);
            assert(b.contains(all[i]));
        }
        if j < a.len() {
            assert(a.contains(all[j]));
        } else {
            assert(b[j - a.len()] == all[j]);
            assert(b.contains(all[j]));
        }
    }
}

} // verus!
