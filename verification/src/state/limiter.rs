//! The sliding-window rate limiter.

use vstd::prelude::*;
use crate::principal::Principal;
use crate::seqs::{lemma_filter_none, lemma_filter_step};
use crate::sorted_map::{lemma_position, position, SortedMap};
use crate::state::{RATE_LIMIT_MAX_CALLS, RATE_LIMIT_WINDOW_NS, State, StateView};
use crate::text::{decimal, decimal_text};

verus! {

/// The start of the window that ends at `now`.
pub open spec fn window_start(now: u64) -> u64 {
    if now >= RATE_LIMIT_WINDOW_NS {
        (now - RATE_LIMIT_WINDOW_NS) as u64
    } else {
        0
    }
}

/// The calls of `bucket` that are not older than `start`.
pub open spec fn live_calls(bucket: Seq<u64>, start: u64) -> Seq<u64> {
    bucket.filter(|t: u64| t >= start)
}

/// The buckets after a sweep: each keeps its live calls, and one without a
/// live call is gone.
pub open spec fn swept(buckets: Map<Principal, Seq<u64>>, start: u64) -> Map<
    Principal,
    Seq<u64>,
> {
    Map::new(
        |p: Principal| buckets.contains_key(p) && live_calls(buckets[p], start).len() > 0,
        |p: Principal| live_calls(buckets[p], start),
    )
}

/// What a caller over the limit is told.
pub open spec fn rate_limit_message() -> Seq<char> {
    "Rate limit exceeded: "@ + decimal_text(RATE_LIMIT_MAX_CALLS as nat)
        + " calls per minute allowed, try again later"@
}

impl StateView {
    /// The recent calls of `p`.
    pub open spec fn bucket(self, p: Principal) -> Seq<u64> {
        if self.rate_limit_buckets.contains_key(p) {
            self.rate_limit_buckets[p]
        } else {
            Seq::empty()
        }
    }

    /// The calls of `p` within the window that ends at `now`.
    pub open spec fn calls_in_window(self, p: Principal, now: u64) -> Seq<u64> {
        live_calls(self.bucket(p), window_start(now))
    }

    /// Whether `p` may call at `now`.
    pub open spec fn within_limit(self, p: Principal, now: u64) -> bool {
        self.calls_in_window(p, now).len() < RATE_LIMIT_MAX_CALLS
    }

    /// The store after `p` has asked to call at `now`: the bucket of `p`
    /// loses its expired calls, and gains this one if it was let through.
    pub open spec fn after_rate_check(self, p: Principal, now: u64) -> StateView {
        StateView {
            rate_limit_buckets: self.rate_limit_buckets.insert(
                p,
                if self.within_limit(p, now) {
                    self.calls_in_window(p, now).push(now)
                } else {
                    self.calls_in_window(p, now)
                },
            ),
            ..self
        }
    }
}

/// The calls of `bucket` that are not older than `start`.
fn keep_live(bucket: &Vec<u64>, start: u64) -> (kept: Vec<u64>)
    ensures
        kept@ == live_calls(bucket@, start),
{
    let ghost keep = |t: u64| t >= start;
    let mut kept: Vec<u64> = Vec::new();
    let mut i: usize = 0;
    proof {
        lemma_filter_none(bucket@.take(0), keep);
    }
    while i < bucket.len()
        invariant
            i <= bucket@.len(),
            keep == |t: u64| t >= start,
            kept@ == bucket@.take(i as int).filter(keep),
        decreases bucket@.len() - i,
    {
        proof {
            lemma_filter_step(bucket@, keep, i as int);
        }
        if bucket[i] >= start {
            kept.push(bucket[i]);
        }
        i += 1;
    }
    proof {
        assert(bucket@.take(bucket@.len() as int) =~= bucket@);
    }
    kept
}

fn start_of_window(now: u64) -> (r: u64)
    ensures
        r == window_start(now),
{
    if now >= RATE_LIMIT_WINDOW_NS {
        now - RATE_LIMIT_WINDOW_NS
    } else {
        0
    }
}

impl State {
    /// Asks whether `caller` may call at `now`, and counts the call if it may.
    ///
    /// The calls of `caller` that are older than one minute are forgotten
    /// first. With 100 calls left in the window the call is refused and not
    /// counted.
    pub fn check_rate_limit(&mut self, caller: &Principal, now: u64) -> (r: Result<(), String>)
        requires
            old(self).wf(),
        ensures
            final(self).wf(),
            final(self)@ == old(self)@.after_rate_check(*caller, now),
            r is Ok <==> old(self)@.within_limit(*caller, now),
            r is Err ==> r->Err_0@ == rate_limit_message(),
            old(self)@.consistent() ==> final(self)@.consistent(),
            old(self)@.consistent() && old(self)@.contacts_indexed()
                ==> final(self)@.contacts_indexed(),
    {
        let start = start_of_window(now);
        let ghost before = self.rate_limit_buckets@;
        let bucket: Vec<u64> = match self.rate_limit_buckets.remove(caller) {
            Some(b) => b,
            None => Vec::new(),
        };
        let mut kept = keep_live(&bucket, start);
        if kept.len() >= RATE_LIMIT_MAX_CALLS {
            self.rate_limit_buckets.insert(*caller, kept);
            proof {
                assert(self.rate_limit_buckets@ =~= before.insert(*caller, kept));
                assert(self@.rate_limit_buckets =~= old(self)@.after_rate_check(
                    *caller,
                    now,
                ).rate_limit_buckets);
            }
            let mut message = "Rate limit exceeded: ".to_string();
            message.append(decimal(RATE_LIMIT_MAX_CALLS as u64).as_str());
            message.append(" calls per minute allowed, try again later");
            return Err(message);
        }
        kept.push(now);
        self.rate_limit_buckets.insert(*caller, kept);
        proof {
            assert(self.rate_limit_buckets@ =~= before.insert(*caller, kept));
            assert(self@.rate_limit_buckets =~= old(self)@.after_rate_check(
                *caller,
                now,
            ).rate_limit_buckets);
        }
        Ok(())
    }

    /// Forgets every call older than one minute before `now`, and every
    /// identity that is left without a call.
    pub fn cleanup_rate_limits(&mut self, now: u64)
        requires
            old(self).wf(),
        ensures
            final(self).wf(),
            final(self)@ == (StateView {
                rate_limit_buckets: swept(old(self)@.rate_limit_buckets, window_start(now)),
                ..old(self)@
            }),
            old(self)@.consistent() ==> final(self)@.consistent(),
            old(self)@.consistent() && old(self)@.contacts_indexed()
                ==> final(self)@.contacts_indexed(),
    {
        let start = start_of_window(now);
        let ghost entries = self.rate_limit_buckets.entries();
        let ghost before = self@.rate_limit_buckets;
        let n: usize = self.rate_limit_buckets.len();
        let mut fresh: SortedMap<Principal, Vec<u64>> = SortedMap::new();
        let mut i: usize = 0;
        proof {
            self.rate_limit_buckets.lemma_entries();
            assert(fresh@.map_values(|l: Vec<u64>| l@) =~= Map::new(
                |p: Principal|
                    before.contains_key(p) && position(entries, p) < 0 && live_calls(
                        before[p],
                        start,
                    ).len() > 0,
                |p: Principal| live_calls(before[p], start),
            ));
        }
        while i < n
            invariant
                self.wf(),
                self@ == old(self)@,
                entries == self.rate_limit_buckets.entries(),
                before == self@.rate_limit_buckets,
                n == entries.len(),
                i <= n,
                fresh.wf(),
                fresh@.map_values(|l: Vec<u64>| l@) == Map::new(
                    |p: Principal|
                        before.contains_key(p) && position(entries, p) < i && live_calls(
                            before[p],
                            start,
                        ).len() > 0,
                    |p: Principal| live_calls(before[p], start),
                ),
            decreases n - i,
        {
            let key: Principal = *self.rate_limit_buckets.key_at(i);
            let kept = keep_live(self.rate_limit_buckets.value_at(i), start);
            let ghost fresh_before = fresh@;
            proof {
                self.rate_limit_buckets.lemma_entries();
                lemma_position(entries, i as int);
                assert(entries[i as int].0 == key);
                assert(before.contains_key(key));
                assert(before[key] == entries[i as int].1@);
            }
            if kept.len() > 0 {
                fresh.insert(key, kept);
            }
            proof {
                assert forall|p: Principal| before.contains_key(p) implies (position(entries, p)
                    < i + 1 <==> (position(entries, p) < i || p == key)) by {
                    let q = position(entries, p);
                    assert(entries[q].0 == p);
                    lemma_position(entries, q);
                }
                let target = Map::new(
                    |p: Principal|
                        before.contains_key(p) && position(entries, p) < i + 1 && live_calls(
                            before[p],
                            start,
                        ).len() > 0,
                    |p: Principal| live_calls(before[p], start),
                );
                let earlier = fresh_before.map_values(|l: Vec<u64>| l@);
                let now_map = fresh@.map_values(|l: Vec<u64>| l@);
                assert(kept@ == live_calls(before[key], start));
                assert(position(entries, key) == i);
                assert(!earlier.contains_key(key));
                assert forall|p: Principal| now_map.contains_key(p) == target.contains_key(p) by {
                    if p != key {
                        assert(now_map.contains_key(p) == earlier.contains_key(p));
                    }
                }
                assert forall|p: Principal| now_map.contains_key(p) implies now_map[p]
                    == target[p] by {
                    if p != key {
                        assert(earlier.contains_key(p));
                        assert(now_map[p] == earlier[p]);
                    }
                }
                assert(now_map =~= target);
            }
            i += 1;
        }
        proof {
            self.rate_limit_buckets.lemma_entries();
            assert(fresh@.map_values(|l: Vec<u64>| l@) =~= swept(before, start));
        }
        self.rate_limit_buckets = fresh;
    }
}

} // verus!
