//! A map that is kept in the order of its keys.
//!
//! It serves where the keys are texts or identities: with such keys the
//! verifier accepts the calls of the standard library's B-tree and knows
//! nothing of what they return. The maps of the store that are keyed by
//! numbers are B-trees of the standard library, whose order of numbers the
//! verifier knows.

use vstd::prelude::*;
use crate::principal::Principal;
use crate::text::{lemma_text_order, text_before, text_precedes};

verus! {

/// A key of a sorted map: a value that stands for a mathematical one, its
/// model, with a strict total order on the models.
pub trait SortKey: Sized {
    /// What a key stands for.
    type Model;

    /// What this key stands for.
    spec fn model(&self) -> Self::Model;

    /// Whether `a` comes before `b`.
    spec fn before(a: Self::Model, b: Self::Model) -> bool;

    /// `before` is a strict total order.
    proof fn lemma_order(a: Self::Model, b: Self::Model, c: Self::Model)
        ensures
            !Self::before(a, a),
            Self::before(a, b) && Self::before(b, c) ==> Self::before(a, c),
            Self::before(a, b) || a == b || Self::before(b, a),
            !(Self::before(a, b) && Self::before(b, a)),
    ;

    /// Whether this key comes before `other`.
    fn precedes(&self, other: &Self) -> (r: bool)
        ensures
            r == Self::before(self.model(), other.model()),
    ;
}

impl SortKey for String {
    type Model = Seq<char>;

    open spec fn model(&self) -> Seq<char> {
        self@
    }

    open spec fn before(a: Seq<char>, b: Seq<char>) -> bool {
        text_before(a, b)
    }

    proof fn lemma_order(a: Seq<char>, b: Seq<char>, c: Seq<char>) {
        lemma_text_order(a, b, c);
    }

    fn precedes(&self, other: &String) -> (r: bool) {
        text_precedes(self.as_str(), other.as_str())
    }
}

impl SortKey for Principal {
    type Model = Principal;

    open spec fn model(&self) -> Principal {
        *self
    }

    open spec fn before(a: Principal, b: Principal) -> bool {
        a.comes_before(b)
    }

    proof fn lemma_order(a: Principal, b: Principal, c: Principal) {
        Principal::lemma_order(a, b, c);
    }

    fn precedes(&self, other: &Principal) -> (r: bool) {
        Principal::precedes(self, other)
    }
}

/// Whether the keys of `s` ascend strictly.
pub open spec fn ascending<K: SortKey, V>(s: Seq<(K, V)>) -> bool {
    forall|i: int, j: int| 0 <= i < j < s.len() ==> K::before(#[trigger] s[i].0.model(), #[trigger] s[j].0.model())
}

/// Whether `s` has an entry for the key `k`.
pub open spec fn has_key<K: SortKey, V>(s: Seq<(K, V)>, k: K::Model) -> bool {
    exists|i: int| 0 <= i < s.len() && #[trigger] s[i].0.model() == k
}

/// Where the entry for the key `k` stands in `s`.
pub open spec fn position<K: SortKey, V>(s: Seq<(K, V)>, k: K::Model) -> int {
    choose|i: int| 0 <= i < s.len() && #[trigger] s[i].0.model() == k
}

/// The map that the entries `s` stand for.
pub open spec fn as_map<K: SortKey, V>(s: Seq<(K, V)>) -> Map<K::Model, V> {
    Map::new(|k: K::Model| has_key(s, k), |k: K::Model| s[position(s, k)].1)
}

/// In an ascending list a key stands at one place only.
pub proof fn lemma_position<K: SortKey, V>(s: Seq<(K, V)>, i: int)
    requires
        ascending(s),
        0 <= i < s.len(),
    ensures
        has_key(s, s[i].0.model()),
        position(s, s[i].0.model()) == i,
        as_map(s).contains_key(s[i].0.model()),
        as_map(s)[s[i].0.model()] == s[i].1,
{
    let k = s[i].0.model();
    let p = position(s, k);
    K::lemma_order(k, k, k);
    if p < i {
        assert(K::before(s[p].0.model(), s[i].0.model()));
    } else if i < p {
        assert(K::before(s[i].0.model(), s[p].0.model()));
    }
}

/// A map that hands its entries out in the order of their keys.
pub struct SortedMap<K: SortKey, V> {
    entries: Vec<(K, V)>,
}

impl<K: SortKey, V> View for SortedMap<K, V> {
    type V = Map<K::Model, V>;

    closed spec fn view(&self) -> Map<K::Model, V> {
        as_map(self.entries@)
    }
}

impl<K: SortKey, V> SortedMap<K, V> {
    /// The entries, in the order of their keys.
    pub closed spec fn entries(&self) -> Seq<(K, V)> {
        self.entries@
    }

    /// The keys ascend strictly.
    pub closed spec fn wf(&self) -> bool {
        ascending(self.entries@)
    }

    /// How the map and the list of its entries belong together.
    pub proof fn lemma_entries(&self)
        requires
            self.wf(),
        ensures
            ascending(self.entries()),
            self@ == as_map(self.entries()),
            self@.dom().finite(),
            self@.len() == self.entries().len(),
            forall|i: int|
                0 <= i < self.entries().len() ==> self@.contains_key(
                    (#[trigger] self.entries()[i]).0.model(),
                ) && self@[self.entries()[i].0.model()] == self.entries()[i].1,
            forall|k: K::Model| #[trigger]
                self@.contains_key(k) ==> 0 <= position(self.entries(), k) < self.entries().len()
                    && self.entries()[position(self.entries(), k)].0.model() == k,
    {
        let s = self.entries@;
        assert forall|i: int| 0 <= i < s.len() implies as_map(s).contains_key(
            (#[trigger] s[i]).0.model(),
        ) && as_map(s)[s[i].0.model()] == s[i].1 by {
            lemma_position(s, i);
        }
        lemma_finite(s);
    }

    /// The empty map.
    pub fn new() -> (r: SortedMap<K, V>)
        ensures
            r.wf(),
            r@ == Map::<K::Model, V>::empty(),
            r.entries() == Seq::<(K, V)>::empty(),
    {
        let r = SortedMap { entries: Vec::new() };
        assert(r@ =~= Map::<K::Model, V>::empty());
        r
    }

    /// The number of entries.
    pub fn len(&self) -> (n: usize)
        ensures
            n == self.entries().len(),
    {
        self.entries.len()
    }

    /// The key of entry `i`.
    pub fn key_at(&self, i: usize) -> (k: &K)
        requires
            i < self.entries().len(),
        ensures
            *k == self.entries()[i as int].0,
    {
        &self.entries[i].0
    }

    /// The value of entry `i`.
    pub fn value_at(&self, i: usize) -> (v: &V)
        requires
            i < self.entries().len(),
        ensures
            *v == self.entries()[i as int].1,
    {
        &self.entries[i].1
    }

    /// The place where the key stands or would stand, and whether it stands there.
    fn find(&self, key: &K) -> (r: (usize, bool))
        requires
            self.wf(),
        ensures
            r.0 <= self.entries@.len(),
            forall|j: int| 0 <= j < r.0 ==> K::before(#[trigger] self.entries@[j].0.model(), key.model()),
            forall|j: int|
                r.0 <= j < self.entries@.len() ==> !K::before(
                    #[trigger] self.entries@[j].0.model(),
                    key.model(),
                ),
            r.1 == has_key(self.entries@, key.model()),
            r.1 ==> r.0 < self.entries@.len() && self.entries@[r.0 as int].0.model() == key.model(),
            !r.1 && r.0 < self.entries@.len() ==> K::before(key.model(), self.entries@[r.0 as int].0.model()),
    {
        let ghost s = self.entries@;
        let mut lo: usize = 0;
        let mut hi: usize = self.entries.len();
        while lo < hi
            invariant
                s == self.entries@,
                ascending(s),
                lo <= hi <= s.len(),
                forall|j: int| 0 <= j < lo ==> K::before(#[trigger] s[j].0.model(), key.model()),
                forall|j: int| hi <= j < s.len() ==> !K::before(#[trigger] s[j].0.model(), key.model()),
            decreases hi - lo,
        {
            let mid: usize = lo + (hi - lo) / 2;
            if self.entries[mid].0.precedes(key) {
                proof {
                    assert forall|j: int| 0 <= j < mid + 1 implies K::before(
                        #[trigger] s[j].0.model(),
                        key.model(),
                    ) by {
                        if j < mid {
                            K::lemma_order(s[j].0.model(), s[mid as int].0.model(), key.model());
                        }
                    }
                }
                lo = mid + 1;
            } else {
                proof {
                    assert forall|j: int| mid <= j < s.len() implies !K::before(
                        #[trigger] s[j].0.model(),
                        key.model(),
                    ) by {
                        if mid < j {
                            K::lemma_order(s[mid as int].0.model(), s[j].0.model(), key.model());
                        }
                    }
                }
                hi = mid;
            }
        }
        let found: bool = lo < self.entries.len() && !key.precedes(&self.entries[lo].0);
        proof {
            if lo < s.len() {
                K::lemma_order(s[lo as int].0.model(), key.model(), key.model());
            }
            if has_key(s, key.model()) {
                let p = position(s, key.model());
                K::lemma_order(key.model(), key.model(), key.model());
                assert(p >= lo);
                if p > lo {
                    assert(K::before(s[lo as int].0.model(), s[p].0.model()));
                }
            }
            if !found && lo < s.len() {
                K::lemma_order(key.model(), s[lo as int].0.model(), key.model());
            }
        }
        (lo, found)
    }

    /// Whether the map has an entry for `key`.
    pub fn contains_key(&self, key: &K) -> (r: bool)
        requires
            self.wf(),
        ensures
            r == self@.contains_key(key.model()),
    {
        let (_i, found) = self.find(key);
        found
    }

    /// The value that `key` maps to.
    pub fn get(&self, key: &K) -> (r: Option<&V>)
        requires
            self.wf(),
        ensures
            r == (if self@.contains_key(key.model()) {
                Some(&self@[key.model()])
            } else {
                None
            }),
    {
        let (i, found) = self.find(key);
        if found {
            proof {
                lemma_position(self.entries@, i as int);
            }
            Some(&self.entries[i].1)
        } else {
            None
        }
    }

    /// Maps `key` to `value`, and returns what it was mapped to before.
    pub fn insert(&mut self, key: K, value: V) -> (r: Option<V>)
        requires
            old(self).wf(),
        ensures
            final(self).wf(),
            final(self)@ == old(self)@.insert(key.model(), value),
            r == (if old(self)@.contains_key(key.model()) {
                Some(old(self)@[key.model()])
            } else {
                None
            }),
    {
        let ghost s = self.entries@;
        let (i, found) = self.find(&key);
        if found {
            let previous = self.entries.remove(i);
            let ghost kept = previous.0;
            self.entries.insert(i, (previous.0, value));
            proof {
                let t = self.entries@;
                lemma_position(s, i as int);
                assert(t =~= s.update(i as int, (kept, value)));
                assert forall|a: int, b: int| 0 <= a < b < t.len() implies K::before(
                    #[trigger] t[a].0.model(),
                    #[trigger] t[b].0.model(),
                ) by {
                    assert(t[a].0.model() == s[a].0.model());
                    assert(t[b].0.model() == s[b].0.model());
                }
                assert forall|q: K::Model| has_key(t, q) == (has_key(s, q) || q == key.model()) by {
                    if has_key(t, q) {
                        let p = position(t, q);
                        assert(s[p].0.model() == q);
                    }
                    if has_key(s, q) {
                        let p = position(s, q);
                        assert(t[p].0.model() == q);
                    }
                    if q == key.model() {
                        assert(t[i as int].0.model() == q);
                    }
                }
                assert forall|q: K::Model| has_key(t, q) implies as_map(t)[q] == as_map(s).insert(
                    key.model(),
                    value,
                )[q] by {
                    let p = position(t, q);
                    lemma_position(t, p);
                    if q != key.model() {
                        assert(s[p].0.model() == q);
                        lemma_position(s, p);
                    }
                }
                assert(as_map(t) =~= as_map(s).insert(key.model(), value));
            }
            Some(previous.1)
        } else {
            self.entries.insert(i, (key, value));
            proof {
                let t = self.entries@;
                assert(t =~= s.insert(i as int, (key, value)));
                assert forall|a: int, b: int| 0 <= a < b < t.len() implies K::before(
                    #[trigger] t[a].0.model(),
                    #[trigger] t[b].0.model(),
                ) by {
                    let a0 = if a < i { a } else { a - 1 };
                    let b0 = if b < i { b } else { b - 1 };
                    if a != i && b != i {
                        assert(t[a] == s[a0]);
                        assert(t[b] == s[b0]);
                        assert(K::before(s[a0].0.model(), s[b0].0.model()));
                    } else if a == i {
                        assert(t[b] == s[b0]);
                        if b0 > i {
                            assert(K::before(s[i as int].0.model(), s[b0].0.model()));
                            K::lemma_order(key.model(), s[i as int].0.model(), s[b0].0.model());
                        }
                    } else {
                        assert(t[a] == s[a0]);
                    }
                }
                assert forall|q: K::Model| has_key(t, q) == (has_key(s, q) || q == key.model()) by {
                    if has_key(t, q) {
                        let p = position(t, q);
                        if p < i {
                            assert(s[p].0.model() == q);
                        } else if p > i {
                            assert(s[p - 1].0.model() == q);
                        }
                    }
                    if has_key(s, q) {
                        let p = position(s, q);
                        if p < i {
                            assert(t[p].0.model() == q);
                        } else {
                            assert(t[p + 1].0.model() == q);
                        }
                    }
                    if q == key.model() {
                        assert(t[i as int].0.model() == q);
                    }
                }
                assert forall|q: K::Model| has_key(t, q) implies as_map(t)[q] == as_map(s).insert(
                    key.model(),
                    value,
                )[q] by {
                    let p = position(t, q);
                    lemma_position(t, p);
                    if p < i {
                        assert(s[p].0.model() == q);
                        lemma_position(s, p);
                    } else if p > i {
                        assert(s[p - 1].0.model() == q);
                        lemma_position(s, p - 1);
                    }
                }
                assert(as_map(t) =~= as_map(s).insert(key.model(), value));
            }
            None
        }
    }

    /// Removes the entry for `key`, and returns what it was mapped to.
    pub fn remove(&mut self, key: &K) -> (r: Option<V>)
        requires
            old(self).wf(),
        ensures
            final(self).wf(),
            final(self)@ == old(self)@.remove(key.model()),
            r == (if old(self)@.contains_key(key.model()) {
                Some(old(self)@[key.model()])
            } else {
                None
            }),
    {
        let ghost s = self.entries@;
        let (i, found) = self.find(key);
        if found {
            let previous = self.entries.remove(i);
            proof {
                let t = self.entries@;
                lemma_position(s, i as int);
                assert(t =~= s.remove(i as int));
                assert forall|a: int, b: int| 0 <= a < b < t.len() implies K::before(
                    #[trigger] t[a].0.model(),
                    #[trigger] t[b].0.model(),
                ) by {
                    let a0 = if a < i { a } else { a + 1 };
                    let b0 = if b < i { b } else { b + 1 };
                    assert(t[a] == s[a0]);
                    assert(t[b] == s[b0]);
                    assert(K::before(s[a0].0.model(), s[b0].0.model()));
                }
                assert forall|q: K::Model| has_key(t, q) == (has_key(s, q) && q != key.model()) by {
                    if has_key(t, q) {
                        let p = position(t, q);
                        let p0 = if p < i { p } else { p + 1 };
                        assert(t[p] == s[p0]);
                        assert(s[p0].0.model() == q);
                        lemma_position(s, p0);
                        lemma_position(s, i as int);
                    }
                    if has_key(s, q) && q != key.model() {
                        let p = position(s, q);
                        if p < i {
                            assert(t[p].0.model() == q);
                        } else {
                            assert(t[p - 1].0.model() == q);
                        }
                    }
                }
                assert forall|q: K::Model| has_key(t, q) implies as_map(t)[q] == as_map(s)[q] by {
                    let p = position(t, q);
                    lemma_position(t, p);
                    let p0 = if p < i { p } else { p + 1 };
                    assert(t[p] == s[p0]);
                    lemma_position(s, p0);
                }
                assert(as_map(t) =~= as_map(s).remove(key.model()));
            }
            Some(previous.1)
        } else {
            assert(as_map(s) =~= as_map(s).remove(key.model()));
            None
        }
    }
}

/// The map of a list of entries has as many keys as the list has entries.
pub proof fn lemma_finite<K: SortKey, V>(s: Seq<(K, V)>)
    requires
        ascending(s),
    ensures
        as_map(s).dom().finite(),
        as_map(s).len() == s.len(),
    decreases s.len(),
{
    if s.len() == 0 {
        assert(as_map(s).dom() =~= Set::<K::Model>::empty());
    } else {
        let t = s.drop_last();
        let k = s.last().0.model();
        assert forall|i: int, j: int| 0 <= i < j < t.len() implies K::before(
            #[trigger] t[i].0.model(),
            #[trigger] t[j].0.model(),
        ) by {
            assert(t[i] == s[i]);
            assert(t[j] == s[j]);
        }
        lemma_finite(t);
        lemma_position(s, s.len() - 1);
        assert forall|q: K::Model| has_key(s, q) == (has_key(t, q) || q == k) by {
            if has_key(s, q) {
                let p = position(s, q);
                if p < t.len() {
                    assert(t[p].0.model() == q);
                }
            }
            if has_key(t, q) {
                let p = position(t, q);
                assert(s[p].0.model() == q);
            }
        }
        assert(!has_key(t, k)) by {
            if has_key(t, k) {
                let p = position(t, k);
                assert(s[p].0.model() == k);
                lemma_position(s, p);
            }
        }
        assert(as_map(s).dom() =~= as_map(t).dom().insert(k));
    }
}

} // verus!
