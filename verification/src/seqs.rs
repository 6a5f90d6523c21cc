//! Facts about sequences that the tables' proofs share.

use vstd::prelude::*;

verus! {

/// Selecting from a sequence whose items all pass keeps it whole.
pub proof fn lemma_filter_all<A>(s: Seq<A>, p: spec_fn(A) -> bool)
    requires
        forall|i: int| 0 <= i < s.len() ==> p(#[trigger] s[i]),
    ensures
        s.filter(p) == s,
    decreases s.len(),
{
    reveal(Seq::filter);
    if s.len() > 0 {
        lemma_filter_all(s.drop_last(), p);
        assert(s.drop_last().push(s.last()) =~= s);
    }
}

/// Selecting from a sequence in which only the item at `i` fails takes that
/// item out.
pub proof fn lemma_filter_out_one<A>(s: Seq<A>, i: int, p: spec_fn(A) -> bool)
    requires
        0 <= i < s.len(),
        !p(s[i]),
        forall|j: int| 0 <= j < s.len() && j != i ==> p(#[trigger] s[j]),
    ensures
        s.filter(p) == s.remove(i),
    decreases s.len(),
{
    reveal(Seq::filter);
    let rest = s.drop_last();
    if i == s.len() - 1 {
        lemma_filter_all(rest, p);
        assert(s.remove(i) =~= rest);
    } else {
        assert(rest[i] == s[i]);
        lemma_filter_out_one(rest, i, p);
        assert(rest.remove(i).push(s.last()) =~= s.remove(i));
    }
}

/// Selecting from a sequence in which no item passes leaves nothing.
pub proof fn lemma_filter_none<A>(s: Seq<A>, p: spec_fn(A) -> bool)
    requires
        forall|i: int| 0 <= i < s.len() ==> !p(#[trigger] s[i]),
    ensures
        s.filter(p) == Seq::<A>::empty(),
    decreases s.len(),
{
    reveal(Seq::filter);
    if s.len() > 0 {
        lemma_filter_none(s.drop_last(), p);
    }
}

/// What a selection holds: the items of the sequence that pass.
pub proof fn lemma_filter_members<A>(s: Seq<A>, p: spec_fn(A) -> bool)
    ensures
        forall|x: A| #[trigger] s.filter(p).contains(x) <==> s.contains(x) && p(x),
{
    let f = s.filter(p);
    assert forall|x: A| #[trigger] f.contains(x) <==> s.contains(x) && p(x) by {
        if f.contains(x) {
            s.lemma_filter_contains_rev(p, x);
            let k = choose|k: int| 0 <= k < f.len() && f[k] == x;
            s.lemma_filter_pred(p, k);
        }
        if s.contains(x) && p(x) {
            let m = choose|m: int| 0 <= m < s.len() && s[m] == x;
            s.lemma_filter_contains(p, m);
        }
    }
}

/// A selection keeps the order of the sequence: each of its items comes from
/// a place in the sequence, and later items from later places.
pub proof fn lemma_filter_order<A>(s: Seq<A>, p: spec_fn(A) -> bool) -> (at: Seq<int>)
    ensures
        at.len() == s.filter(p).len(),
        forall|k: int| 0 <= k < at.len() ==> 0 <= #[trigger] at[k] < s.len() && s[at[k]] == s.filter(p)[k],
        forall|k: int, m: int| 0 <= k < m < at.len() ==> #[trigger] at[k] < #[trigger] at[m],
    decreases s.len(),
{
    reveal(Seq::filter);
    if s.len() == 0 {
        Seq::empty()
    } else {
        let rest = s.drop_last();
        let before = lemma_filter_order(rest, p);
        if p(s.last()) {
            let at = before.push(s.len() - 1);
            assert forall|k: int| 0 <= k < at.len() implies 0 <= #[trigger] at[k] < s.len() && s[at[k]] == s.filter(p)[k] by {
                if k < before.len() {
                    assert(at[k] == before[k]);
                    assert(rest[before[k]] == rest.filter(p)[k]);
                }
            }
            assert forall|k: int, m: int| 0 <= k < m < at.len() implies #[trigger] at[k] < #[trigger] at[m] by {
                assert(at[k] == before[k]);
                if m < before.len() {
                    assert(at[m] == before[m]);
                }
            }
            at
        } else {
            assert forall|k: int| 0 <= k < before.len() implies 0 <= #[trigger] before[k] < s.len() && s[before[k]] == s.filter(p)[k] by {
                assert(rest[before[k]] == rest.filter(p)[k]);
            }
            before
        }
    }
}

/// The last item of a selection is the last item of the sequence that
/// passes.
pub proof fn lemma_filter_last<A>(s: Seq<A>, i: int, p: spec_fn(A) -> bool)
    requires
        0 <= i < s.len(),
        p(s[i]),
        forall|j: int| i < j < s.len() ==> !p(#[trigger] s[j]),
    ensures
        s.filter(p).len() > 0,
        s.filter(p).last() == s[i],
    decreases s.len(),
{
    reveal(Seq::filter);
    if i < s.len() - 1 {
        let rest = s.drop_last();
        assert(rest[i] == s[i]);
        lemma_filter_last(rest, i, p);
    }
}

/// The first item of a selection is the first item of the sequence that
/// passes.
pub proof fn lemma_filter_first<A>(s: Seq<A>, i: int, p: spec_fn(A) -> bool)
    requires
        0 <= i < s.len(),
        p(s[i]),
        forall|j: int| 0 <= j < i ==> !p(#[trigger] s[j]),
    ensures
        s.filter(p).len() > 0,
        s.filter(p)[0] == s[i],
    decreases s.len(),
{
    reveal(Seq::filter);
    let rest = s.drop_last();
    if i == s.len() - 1 {
        lemma_filter_none(rest, p);
    } else {
        assert(rest[i] == s[i]);
        lemma_filter_first(rest, i, p);
    }
}

/// What holds between each item of a sequence and every later one holds so
/// in a selection from it.
pub proof fn lemma_filter_keeps_order<A>(
    s: Seq<A>,
    p: spec_fn(A) -> bool,
    rel: spec_fn(A, A) -> bool,
)
    requires
        forall|i: int, j: int| 0 <= i < j < s.len() ==> rel(#[trigger] s[i], #[trigger] s[j]),
    ensures
        forall|i: int, j: int|
            0 <= i < j < s.filter(p).len() ==> rel(
                #[trigger] s.filter(p)[i],
                #[trigger] s.filter(p)[j],
            ),
{
    let f = s.filter(p);
    let at = lemma_filter_order(s, p);
    assert forall|i: int, j: int| 0 <= i < j < f.len() implies rel(
        #[trigger] f[i],
        #[trigger] f[j],
    ) by {
        assert(at[i] < at[j]);
        assert(rel(s[at[i]], s[at[j]]));
    }
}

/// What holds of each item of a sequence holds of each item of a selection
/// from it.
pub proof fn lemma_filter_keeps_each<A>(s: Seq<A>, p: spec_fn(A) -> bool, q: spec_fn(A) -> bool)
    requires
        forall|i: int| 0 <= i < s.len() ==> q(#[trigger] s[i]),
    ensures
        forall|i: int| 0 <= i < s.filter(p).len() ==> q(#[trigger] s.filter(p)[i]) && p(s.filter(p)[i]),
{
    let f = s.filter(p);
    let at = lemma_filter_order(s, p);
    assert forall|i: int| 0 <= i < f.len() implies q(#[trigger] f[i]) && p(f[i]) by {
        assert(q(s[at[i]]));
        s.lemma_filter_pred(p, i);
    }
}

} // verus!
