//! Facts about sequences that the loops of this library rest on.

use vstd::prelude::*;

verus! {

/// The first `n` items of `s`, or all of `s` where it has fewer.
pub open spec fn first_n<A>(s: Seq<A>, n: nat) -> Seq<A> {
    if n < s.len() {
        s.take(n as int)
    } else {
        s
    }
}

/// What is left of `s` from position `n` on; nothing where `s` is shorter.
pub open spec fn after_n<A>(s: Seq<A>, n: nat) -> Seq<A> {
    if n < s.len() {
        s.skip(n as int)
    } else {
        Seq::empty()
    }
}

/// A log that is kept within bounds: once it has grown beyond `cap` items it
/// loses its `batch` oldest.
pub open spec fn bounded<A>(log: Seq<A>, cap: nat, batch: nat) -> Seq<A> {
    if log.len() > cap && batch <= log.len() {
        log.skip(batch as int)
    } else {
        log
    }
}

/// The page of `all` that starts at `offset` and holds `limit` items at most.
pub open spec fn page<A>(all: Seq<A>, offset: u64, limit: u64) -> Seq<A> {
    first_n(after_n(all, offset as nat), limit as nat)
}

/// A page of a list that grows by one item: the item is on the page if the
/// list had reached the page's start and the page was not full.
pub proof fn lemma_page_push<A>(all: Seq<A>, x: A, offset: u64, limit: u64)
    ensures
        page(all, offset, limit).len() <= limit,
        page(all.push(x), offset, limit) == if all.len() >= offset && page(
            all,
            offset,
            limit,
        ).len() < limit {
            page(all, offset, limit).push(x)
        } else {
            page(all, offset, limit)
        },
{
    let grown = all.push(x);
    if offset < all.len() {
        assert(after_n(grown, offset as nat) =~= after_n(all, offset as nat).push(x));
    } else if offset == all.len() {
        assert(after_n(grown, offset as nat) =~= after_n(all, offset as nat).push(x));
    }
    let a = after_n(all, offset as nat);
    if limit < a.len() + 1 {
        assert(a.push(x).take(limit as int) =~= first_n(a, limit as nat));
    }
}

/// Filtering one item more: the item is appended if it passes.
pub proof fn lemma_filter_step<A>(s: Seq<A>, pred: spec_fn(A) -> bool, i: int)
    requires
        0 <= i < s.len(),
    ensures
        s.take(i + 1).filter(pred) == if pred(s[i]) {
            s.take(i).filter(pred).push(s[i])
        } else {
            s.take(i).filter(pred)
        },
{
    reveal(Seq::filter);
    assert(s.take(i + 1).drop_last() =~= s.take(i));
    assert(s.take(i + 1).last() == s[i]);
}

/// What passes the filter among the first `j` items comes first among
/// what passes it at all.
pub proof fn lemma_filter_prefix<A>(s: Seq<A>, pred: spec_fn(A) -> bool, j: int)
    requires
        0 <= j <= s.len(),
    ensures
        s.take(j).filter(pred).len() <= s.filter(pred).len(),
        s.take(j).filter(pred) == s.filter(pred).take(s.take(j).filter(pred).len() as int),
    decreases s.len() - j,
{
    if j == s.len() {
        assert(s.take(j) =~= s);
        assert(s.filter(pred).take(s.filter(pred).len() as int) =~= s.filter(pred));
    } else {
        lemma_filter_prefix(s, pred, j + 1);
        lemma_filter_step(s, pred, j);
        let a0 = s.take(j).filter(pred);
        let a1 = s.take(j + 1).filter(pred);
        let f = s.filter(pred);
        assert(a0 =~= a1.take(a0.len() as int));
        assert(a0 =~= f.take(a0.len() as int));
    }
}

/// The members of a sequence that has grown by one item.
pub proof fn lemma_to_set_push<A>(s: Seq<A>, x: A)
    ensures
        s.push(x).to_set() == s.to_set().insert(x),
{
    let t = s.push(x);
    assert forall|k: A| t.to_set().contains(k) == s.to_set().insert(x).contains(k) by {
        if t.contains(k) {
            let j = choose|j: int| 0 <= j < t.len() && t[j] == k;
            if j < s.len() {
                assert(s[j] == k);
            }
        }
        if s.contains(k) {
            let j = choose|j: int| 0 <= j < s.len() && s[j] == k;
            assert(t[j] == k);
        }
        if k == x {
            assert(t[s.len() as int] == k);
        }
    }
    assert(t.to_set() =~= s.to_set().insert(x));
}

/// A filter that every item passes changes nothing.
pub proof fn lemma_filter_all<A>(s: Seq<A>, pred: spec_fn(A) -> bool)
    requires
        forall|i: int| 0 <= i < s.len() ==> pred(#[trigger] s[i]),
    ensures
        s.filter(pred) == s,
    decreases s.len(),
{
    reveal(Seq::filter);
    if s.len() > 0 {
        let rest = s.drop_last();
        assert forall|i: int| 0 <= i < rest.len() implies pred(#[trigger] rest[i]) by {
            assert(rest[i] == s[i]);
        }
        lemma_filter_all(rest, pred);
        assert(rest.push(s.last()) =~= s);
    } else {
        assert(s.filter(pred) =~= s);
    }
}

/// Nothing passes a filter of the empty sequence.
pub proof fn lemma_filter_none<A>(s: Seq<A>, pred: spec_fn(A) -> bool)
    requires
        s.len() == 0,
    ensures
        s.filter(pred) == Seq::<A>::empty(),
{
    reveal(Seq::filter);
    assert(s =~= Seq::<A>::empty());
}

/// What passes a filter passes its test, and was in the sequence.
pub proof fn lemma_filter_members<A>(s: Seq<A>, pred: spec_fn(A) -> bool)
    ensures
        s.filter(pred).len() <= s.len(),
        forall|i: int|
            0 <= i < s.filter(pred).len() ==> pred(#[trigger] s.filter(pred)[i]) && s.contains(
                s.filter(pred)[i],
            ),
        forall|i: int|
            0 <= i < s.len() && pred(s[i]) ==> s.filter(pred).contains(#[trigger] s[i]),
    decreases s.len(),
{
    reveal(Seq::filter);
    if s.len() > 0 {
        let t = s.drop_last();
        lemma_filter_members(t, pred);
        let f = s.filter(pred);
        let g = t.filter(pred);
        assert forall|i: int| 0 <= i < f.len() implies pred(#[trigger] f[i]) && s.contains(
            f[i],
        ) by {
            if i < g.len() {
                assert(f[i] == g[i]);
                assert(t.contains(g[i]));
                let j = choose|j: int| 0 <= j < t.len() && t[j] == g[i];
                assert(s[j] == f[i]);
            } else {
                assert(f[i] == s.last());
                assert(s[s.len() - 1] == f[i]);
            }
        }
        assert forall|i: int| 0 <= i < s.len() && pred(s[i]) implies f.contains(
            #[trigger] s[i],
        ) by {
            if i < t.len() {
                assert(t[i] == s[i]);
                assert(g.contains(t[i]));
                let j = choose|j: int| 0 <= j < g.len() && g[j] == t[i];
                assert(f[j] == s[i]);
            } else {
                assert(f[f.len() - 1] == s[i]);
            }
        }
    }
}

/// What passes a filter of a sequence without duplicates has no duplicates.
pub proof fn lemma_filter_distinct<A>(s: Seq<A>, pred: spec_fn(A) -> bool)
    requires
        s.no_duplicates(),
    ensures
        s.filter(pred).no_duplicates(),
    decreases s.len(),
{
    reveal(Seq::filter);
    if s.len() > 0 {
        let rest = s.drop_last();
        assert(rest.no_duplicates()) by {
            assert forall|i: int, j: int|
                0 <= i < rest.len() && 0 <= j < rest.len() && i != j implies rest[i] != rest[j] by {
                assert(rest[i] == s[i]);
                assert(rest[j] == s[j]);
            }
        }
        lemma_filter_distinct(rest, pred);
        lemma_filter_members(rest, pred);
        let kept = rest.filter(pred);
        if pred(s.last()) {
            let grown = kept.push(s.last());
            assert forall|i: int, j: int|
                0 <= i < grown.len() && 0 <= j < grown.len() && i != j implies grown[i]
                != grown[j] by {
                if i < kept.len() && j < kept.len() {
                    assert(grown[i] == kept[i]);
                    assert(grown[j] == kept[j]);
                } else {
                    let inner = if i < kept.len() { i } else { j };
                    assert(rest.contains(kept[inner]));
                    let q = choose|q: int| 0 <= q < rest.len() && rest[q] == kept[inner];
                    assert(s[q] == kept[inner]);
                    assert(s[s.len() - 1] == s.last());
                }
            }
        }
    }
}

} // verus!
