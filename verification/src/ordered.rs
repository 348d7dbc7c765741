//! Maps keyed by numbers, read in ascending order of their keys.

use vstd::prelude::*;
use vstd::std_specs::btree::*;
use vstd::std_specs::cmp::OrdSpec;
use vstd::std_specs::iter::IteratorSpec;
use std::collections::BTreeMap;
use crate::copies::Duplicate;

verus! {

/// Whether `s` ascends strictly.
pub open spec fn strictly_ascending(s: Seq<u64>) -> bool {
    forall|i: int, j: int| 0 <= i < j < s.len() ==> s[i] < s[j]
}

/// Whether `s` lists the members of `d`, each once, in ascending order.
pub open spec fn lists_ascending(s: Seq<u64>, d: Set<u64>) -> bool {
    &&& strictly_ascending(s)
    &&& forall|k: u64| d.contains(k) <==> s.contains(k)
}

/// The members of the finite set `d`, in ascending order.
pub open spec fn ascending_keys(d: Set<u64>) -> Seq<u64> {
    choose|s: Seq<u64>| lists_ascending(s, d)
}

/// The values of `m`, in ascending order of their keys.
pub open spec fn ascending_values<V>(m: Map<u64, V>) -> Seq<V> {
    ascending_keys(m.dom()).map_values(|k: u64| m[k])
}

/// The keys of `m` with their values, in ascending order of the keys.
pub open spec fn ascending_pairs<V>(m: Map<u64, V>) -> Seq<(u64, V)> {
    ascending_keys(m.dom()).map_values(|k: u64| (k, m[k]))
}

/// The map that a list of keys and values stands for: of two values for one
/// key the later one counts.
pub open spec fn map_of<K, V>(pairs: Seq<(K, V)>) -> Map<K, V>
    decreases pairs.len(),
{
    if pairs.len() == 0 {
        Map::empty()
    } else {
        map_of(pairs.drop_last()).insert(pairs.last().0, pairs.last().1)
    }
}

/// A set has one ascending list only.
pub proof fn lemma_one_ascending_list(s: Seq<u64>, t: Seq<u64>, d: Set<u64>)
    requires
        lists_ascending(s, d),
        lists_ascending(t, d),
    ensures
        s == t,
    decreases s.len(),
{
    if s.len() == 0 {
        if t.len() > 0 {
            assert(t.contains(t[0]));
            assert(d.contains(t[0]));
        }
        assert(s =~= t);
    } else {
        let top = s.last();
        assert(s.contains(top));
        assert(d.contains(top));
        assert(t.contains(top));
        let p = choose|p: int| 0 <= p < t.len() && t[p] == top;
        if p < t.len() - 1 {
            let other = t.last();
            assert(t.contains(other));
            assert(s.contains(other));
            let q = choose|q: int| 0 <= q < s.len() && s[q] == other;
            assert(t[p] < t[t.len() - 1]);
            if q < s.len() - 1 {
                assert(s[q] < s[s.len() - 1]);
            }
        }
        let s0 = s.drop_last();
        let t0 = t.drop_last();
        let d0 = d.remove(top);
        assert forall|k: u64| d0.contains(k) <==> s0.contains(k) by {
            if s0.contains(k) {
                let i = choose|i: int| 0 <= i < s0.len() && s0[i] == k;
                assert(s[i] == k);
                assert(s[i] < s[s.len() - 1]);
                assert(s.contains(k));
            }
            if d0.contains(k) {
                assert(s.contains(k));
                let i = choose|i: int| 0 <= i < s.len() && s[i] == k;
                assert(s0[i] == k);
            }
        }
        assert forall|k: u64| d0.contains(k) <==> t0.contains(k) by {
            if t0.contains(k) {
                let i = choose|i: int| 0 <= i < t0.len() && t0[i] == k;
                assert(t[i] == k);
                assert(t[i] < t[t.len() - 1]);
                assert(t.contains(k));
            }
            if d0.contains(k) {
                assert(t.contains(k));
                let i = choose|i: int| 0 <= i < t.len() && t[i] == k;
                assert(t0[i] == k);
            }
        }
        lemma_one_ascending_list(s0, t0, d0);
        assert(s =~= s0.push(top));
        assert(t =~= t0.push(top));
    }
}

/// A list that ascends and holds the members of `d` is the ascending list of `d`.
pub proof fn lemma_is_ascending_list(s: Seq<u64>, d: Set<u64>)
    requires
        lists_ascending(s, d),
    ensures
        s == ascending_keys(d),
{
    lemma_one_ascending_list(s, ascending_keys(d), d);
}

/// The members of `d` below `n`, in ascending order.
pub open spec fn keys_below(d: Set<u64>, n: nat) -> Seq<u64>
    decreases n,
{
    if n == 0 {
        Seq::empty()
    } else {
        let rest = keys_below(d, (n - 1) as nat);
        if d.contains((n - 1) as u64) {
            rest.push((n - 1) as u64)
        } else {
            rest
        }
    }
}

proof fn lemma_keys_below(d: Set<u64>, n: nat)
    requires
        n <= u64::MAX + 1,
    ensures
        strictly_ascending(keys_below(d, n)),
        forall|k: u64| #[trigger] keys_below(d, n).contains(k) <==> d.contains(k) && k < n,
    decreases n,
{
    if n > 0 {
        let rest = keys_below(d, (n - 1) as nat);
        lemma_keys_below(d, (n - 1) as nat);
        let top = (n - 1) as u64;
        let s = keys_below(d, n);
        if d.contains(top) {
            assert forall|i: int, j: int| 0 <= i < j < s.len() implies s[i] < s[j] by {
                assert(s =~= rest.push(top));
                assert(s[i] == rest[i]);
                assert(rest.contains(rest[i]));
                assert(rest[i] < n - 1);
                if j < rest.len() {
                    assert(s[j] == rest[j]);
                } else {
                    assert(s[j] == top);
                }
            }
            assert forall|k: u64| s.contains(k) <==> d.contains(k) && k < n by {
                if s.contains(k) {
                    let i = choose|i: int| 0 <= i < s.len() && s[i] == k;
                    if i < rest.len() {
                        assert(rest[i] == k);
                        assert(rest.contains(k));
                    }
                }
                if d.contains(k) && k < n {
                    if k == top {
                        assert(s[rest.len() as int] == k);
                    } else {
                        assert(rest.contains(k));
                        let i = choose|i: int| 0 <= i < rest.len() && rest[i] == k;
                        assert(s[i] == k);
                    }
                }
            }
        }
    } else {
        assert forall|k: u64| keys_below(d, n).contains(k) <==> d.contains(k) && k < n by {
            if keys_below(d, n).contains(k) {
                let i = choose|i: int| 0 <= i < keys_below(d, n).len() && keys_below(d, n)[i] == k;
            }
        }
    }
}

/// Every set of numbers has its ascending list.
pub proof fn lemma_ascending_keys(d: Set<u64>)
    ensures
        lists_ascending(ascending_keys(d), d),
{
    lemma_keys_below(d, (u64::MAX + 1) as nat);
    let all = keys_below(d, (u64::MAX + 1) as nat);
    assert forall|k: u64| d.contains(k) <==> all.contains(k) by {
        assert(all.contains(k) <==> d.contains(k) && k < u64::MAX + 1);
    }
    assert(lists_ascending(all, d));
}

/// A map that gains a key above all its keys gains an entry at the end of
/// its ascending list.
pub proof fn lemma_ascending_push<V>(m: Map<u64, V>, k: u64, v: V)
    requires
        forall|x: u64| m.contains_key(x) ==> x < k,
    ensures
        ascending_keys(m.dom().insert(k)) == ascending_keys(m.dom()).push(k),
        ascending_pairs(m.insert(k, v)) == ascending_pairs(m).push((k, v)),
        ascending_values(m.insert(k, v)) == ascending_values(m).push(v),
{
    let keys = ascending_keys(m.dom());
    lemma_ascending_keys(m.dom());
    let grown = keys.push(k);
    assert forall|i: int, j: int| 0 <= i < j < grown.len() implies grown[i] < grown[j] by {
        assert(grown[i] == keys[i]);
        assert(keys.contains(keys[i]));
        if j < keys.len() {
            assert(grown[j] == keys[j]);
        }
    }
    assert forall|x: u64| m.dom().insert(k).contains(x) <==> grown.contains(x) by {
        if grown.contains(x) {
            let i = choose|i: int| 0 <= i < grown.len() && grown[i] == x;
            if i < keys.len() {
                assert(keys[i] == x);
                assert(keys.contains(x));
            }
        }
        if m.dom().contains(x) {
            assert(keys.contains(x));
            let i = choose|i: int| 0 <= i < keys.len() && keys[i] == x;
            assert(grown[i] == x);
        }
        if x == k {
            assert(grown[keys.len() as int] == x);
        }
    }
    lemma_is_ascending_list(grown, m.dom().insert(k));
    assert(m.insert(k, v).dom() =~= m.dom().insert(k));
    assert forall|i: int| 0 <= i < keys.len() implies keys[i] != k by {
        assert(keys.contains(keys[i]));
    }
    assert(ascending_pairs(m.insert(k, v)) =~= ascending_pairs(m).push((k, v)));
    assert(ascending_values(m.insert(k, v)) =~= ascending_values(m).push(v));
}

/// What the standard library calls increasing is ascending by `<`.
proof fn lemma_increasing(s: Seq<&u64>)
    requires
        increasing_seq(s),
    ensures
        forall|i: int, j: int| 0 <= i < j < s.len() ==> *(#[trigger] s[i]) < *(#[trigger] s[j]),
{
    axiom_increasing_seq_meaning::<&u64>(s);
    assert forall|i: int, j: int| 0 <= i < j < s.len() implies *(#[trigger] s[i]) < *(
    #[trigger] s[j]) by {
        assert(OrdSpec::cmp_spec(&s[i], &s[j]) is Less);
    }
}

/// The keys of a map, in ascending order.
pub fn ascending_key_list<V>(m: &BTreeMap<u64, V>) -> (r: Vec<u64>)
    ensures
        r@ == ascending_keys(m@.dom()),
        lists_ascending(r@, m@.dom()),
        r@.len() == m@.len(),
{
    let mut out: Vec<u64> = Vec::new();
    for k in it: m.keys()
        invariant
            it.seq() == spec_keys_iter(m).remaining(),
            out@.len() == it.index(),
            forall|i: int| 0 <= i < out@.len() ==> out@[i] == *it.seq()[i],
    {
        out.push(*k);
    }
    proof {
        let s = spec_keys_iter(m).remaining();
        axiom_spec_keys_iter(m);
        assert(out@ =~= s.unref());
        assert forall|i: int, j: int| 0 <= i < j < out@.len() implies out@[i] < out@[j] by {
            lemma_increasing(s);
            assert(out@[i] == *s[i]);
            assert(out@[j] == *s[j]);
        }
        assert forall|k: u64| m@.dom().contains(k) <==> out@.contains(k) by {
            assert(s.unref().to_set().contains(k) == m@.dom().contains(k));
        }
        lemma_is_ascending_list(out@, m@.dom());
    }
    out
}

/// The keys of a map with copies of their values, in ascending order of the keys.
pub fn pairs_of<V: Duplicate>(m: &BTreeMap<u64, V>) -> (r: Vec<(u64, V)>)
    ensures
        r@ == ascending_pairs(m@),
{
    let keys = ascending_key_list(m);
    let mut r: Vec<(u64, V)> = Vec::new();
    let mut i: usize = 0;
    while i < keys.len()
        invariant
            lists_ascending(keys@, m@.dom()),
            keys@ == ascending_keys(m@.dom()),
            i <= keys@.len(),
            r@ == ascending_pairs(m@).take(i as int),
        decreases keys@.len() - i,
    {
        let key: u64 = keys[i];
        proof {
            assert(keys@.contains(key));
        }
        match m.get(&key) {
            Some(v) => {
                r.push((key, v.duplicate()));
            },
            None => {},
        }
        i += 1;
        assert(r@ =~= ascending_pairs(m@).take(i as int));
    }
    assert(ascending_pairs(m@).take(keys@.len() as int) =~= ascending_pairs(m@));
    r
}

/// The map of a list that has grown by one entry.
pub proof fn lemma_map_of_step<K, V>(pairs: Seq<(K, V)>, i: int)
    requires
        0 <= i < pairs.len(),
    ensures
        map_of(pairs.take(i + 1)) == map_of(pairs.take(i)).insert(pairs[i].0, pairs[i].1),
{
    assert(pairs.take(i + 1).drop_last() =~= pairs.take(i));
    assert(pairs.take(i + 1).last() == pairs[i]);
}

/// The map that a list of keys and values stands for, with copies of the values.
pub fn map_from<V: Duplicate>(list: &Vec<(u64, V)>) -> (r: BTreeMap<u64, V>)
    ensures
        r@ == map_of(list@),
{
    let mut r: BTreeMap<u64, V> = BTreeMap::new();
    let mut i: usize = 0;
    proof {
        assert(list@.take(0) =~= Seq::empty());
    }
    while i < list.len()
        invariant
            i <= list@.len(),
            r@ == map_of(list@.take(i as int)),
        decreases list@.len() - i,
    {
        proof {
            lemma_map_of_step(list@, i as int);
        }
        r.insert(list[i].0, list[i].1.duplicate());
        i += 1;
    }
    proof {
        assert(list@.take(list@.len() as int) =~= list@);
    }
    r
}

} // verus!
