//! The audit log, the activity log and the history of metrics.

use vstd::prelude::*;
use crate::invariants::lemma_same_records;
use crate::principal::Principal;
use crate::seqs::{bounded, first_n, lemma_filter_none, lemma_filter_prefix, lemma_filter_step};
use crate::state::{State, StateView};
use crate::text::same_text;
use crate::types::{AuditLogEntry, MetricsSnapshot, Timestamp, UserActivity};

verus! {

/// The number of entries that the audit log and the activity log keep.
pub const LOG_CAPACITY: usize = 10000;

/// The number of oldest entries that a log loses when it has grown beyond
/// its capacity.
pub const LOG_PRUNE_BATCH: usize = 1000;

/// The number of snapshots that the history of metrics keeps.
pub const METRICS_CAPACITY: usize = 365;

/// The number of oldest snapshots that the history loses when it has grown
/// beyond its capacity.
pub const METRICS_PRUNE_BATCH: usize = 30;

/// The number of entries that a query returns where it names no limit.
pub const DEFAULT_QUERY_LIMIT: u64 = 100;

/// What a filter on a text asks for, as a mathematical value.
pub open spec fn text_wanted(filter: Option<&str>) -> Option<Seq<char>> {
    match filter {
        Some(t) => Some(t@),
        None => None,
    }
}

/// What a filter on an identity asks for.
pub open spec fn principal_wanted(filter: Option<&Principal>) -> Option<Principal> {
    match filter {
        Some(p) => Some(*p),
        None => None,
    }
}

/// Whether the entry `e` passes every filter that is set.
pub open spec fn audit_matches(
    e: AuditLogEntry,
    action: Option<Seq<char>>,
    target_type: Option<Seq<char>>,
    actor: Option<Principal>,
) -> bool {
    &&& action matches Some(a) ==> e.action@ == a
    &&& target_type matches Some(t) ==> e.target_type@ == t
    &&& actor matches Some(p) ==> e.actor == p
}

/// The test of the entries that pass every filter that is set.
pub open spec fn audit_filter(
    action: Option<Seq<char>>,
    target_type: Option<Seq<char>>,
    actor: Option<Principal>,
) -> spec_fn(AuditLogEntry) -> bool {
    |e: AuditLogEntry| audit_matches(e, action, target_type, actor)
}

/// The limit of a query: 100 where none is named.
pub open spec fn query_limit(limit: Option<u64>) -> nat {
    match limit {
        Some(l) => l as nat,
        None => DEFAULT_QUERY_LIMIT as nat,
    }
}

/// The test of the snapshots taken from `from` to `to`, both included.
pub open spec fn taken_within(from: Timestamp, to: Timestamp) -> spec_fn(MetricsSnapshot) -> bool {
    |m: MetricsSnapshot| from <= m.timestamp && m.timestamp <= to
}

/// The test of the snapshots that are not older than `t`.
pub open spec fn not_older_than(t: Timestamp) -> spec_fn(MetricsSnapshot) -> bool {
    |m: MetricsSnapshot| m.timestamp >= t
}

/// The test of the snapshots that are older than `t`.
pub open spec fn older_than(t: Timestamp) -> spec_fn(MetricsSnapshot) -> bool {
    |m: MetricsSnapshot| m.timestamp < t
}

/// The snapshots of `s` from the newest to the oldest; of two that were
/// taken at the same time the one that stands first in `s` comes first.
pub open spec fn newest_first(s: Seq<MetricsSnapshot>) -> Seq<MetricsSnapshot>
    decreases s.len(),
{
    if s.len() == 0 {
        Seq::empty()
    } else {
        let rest = newest_first(s.drop_last());
        let x = s.last();
        rest.filter(not_older_than(x.timestamp)).push(x) + rest.filter(older_than(x.timestamp))
    }
}

/// Whether `s` runs from the newest snapshot to the oldest.
pub open spec fn descending(s: Seq<MetricsSnapshot>) -> bool {
    forall|i: int, j: int| 0 <= i < j < s.len() ==> s[i].timestamp >= s[j].timestamp
}

/// In a descending list the snapshots not older than `t` are the first `k`,
/// where snapshot `k` is the first that is older.
proof fn lemma_descending_split(s: Seq<MetricsSnapshot>, t: Timestamp, k: int)
    requires
        descending(s),
        0 <= k <= s.len(),
        forall|i: int| 0 <= i < k ==> s[i].timestamp >= t,
        forall|i: int| k <= i < s.len() ==> s[i].timestamp < t,
    ensures
        s.filter(not_older_than(t)) == s.take(k),
        s.filter(older_than(t)) == s.skip(k),
    decreases s.len(),
{
    reveal(Seq::filter);
    if s.len() == 0 {
        assert(s.take(k) =~= s);
        assert(s.skip(k) =~= s);
    } else {
        let r = s.drop_last();
        if k == s.len() {
            lemma_descending_split(r, t, k - 1);
            assert(s.take(k) =~= r.take(k - 1).push(s.last()));
            assert(r.skip(k - 1) =~= Seq::<MetricsSnapshot>::empty());
            assert(s.skip(k) =~= Seq::<MetricsSnapshot>::empty());
        } else {
            lemma_descending_split(r, t, k);
            assert(s.take(k) =~= r.take(k));
            assert(s.skip(k) =~= r.skip(k).push(s.last()));
        }
    }
}

impl StateView {
    /// The store after an action has been written to the audit log.
    pub open spec fn with_audit_entry(self, entry: AuditLogEntry) -> StateView {
        StateView {
            audit_log: bounded(
                self.audit_log.push(entry),
                LOG_CAPACITY as nat,
                LOG_PRUNE_BATCH as nat,
            ),
            next_audit_log_id: (self.next_audit_log_id + 1) as u64,
            ..self
        }
    }

    /// The entries that a query of the audit log returns: the newest first.
    pub open spec fn audit_query(
        self,
        action: Option<Seq<char>>,
        target_type: Option<Seq<char>>,
        actor: Option<Principal>,
        limit: Option<u64>,
    ) -> Seq<AuditLogEntry> {
        first_n(
            self.audit_log.reverse().filter(audit_filter(action, target_type, actor)),
            query_limit(limit),
        )
    }

    /// The snapshots that a query of the metrics returns: the newest first.
    pub open spec fn metrics_query(self, from: Timestamp, to: Timestamp, limit: Option<u64>) -> Seq<
        MetricsSnapshot,
    > {
        first_n(newest_first(self.metrics_history.filter(taken_within(from, to))), query_limit(limit))
    }
}

/// Whether `e` is the entry of the action that is described.
pub open spec fn is_audit_entry(
    e: AuditLogEntry,
    id: u64,
    now: Timestamp,
    actor: Principal,
    action: Seq<char>,
    target_type: Seq<char>,
    target_id: Seq<char>,
) -> bool {
    &&& e.id == id
    &&& e.timestamp == now
    &&& e.actor == actor
    &&& e.action@ == action
    &&& e.target_type@ == target_type
    &&& e.target_id@ == target_id
}

fn passes_text(filter: Option<&str>, value: &String) -> (r: bool)
    ensures
        r == (text_wanted(filter) matches Some(t) ==> value@ == t),
{
    match filter {
        Some(t) => same_text(value.as_str(), t),
        None => true,
    }
}

fn passes_audit(
    e: &AuditLogEntry,
    action: Option<&str>,
    target_type: Option<&str>,
    actor: Option<&Principal>,
) -> (r: bool)
    ensures
        r == audit_matches(*e, text_wanted(action), text_wanted(target_type), principal_wanted(actor)),
{
    let by_actor: bool = match actor {
        Some(p) => e.actor == *p,
        None => true,
    };
    passes_text(action, &e.action) && passes_text(target_type, &e.target_type) && by_actor
}

/// Drops the `batch` oldest entries of a log that has grown beyond `cap`.
fn prune<T>(log: &mut Vec<T>, cap: usize, batch: usize)
    ensures
        final(log)@ == bounded(old(log)@, cap as nat, batch as nat),
{
    if log.len() > cap && batch <= log.len() {
        let kept = log.split_off(batch);
        *log = kept;
        proof {
            assert(old(log)@.subrange(batch as int, old(log)@.len() as int) =~= old(log)@.skip(
                batch as int,
            ));
        }
    }
}

impl State {
    /// Writes an action to the audit log under the next number.
    pub fn record_audit_log(
        &mut self,
        actor: Principal,
        action: &str,
        target_type: &str,
        target_id: &str,
        details: Option<String>,
        now: Timestamp,
    )
        requires
            old(self).wf(),
            old(self)@.next_audit_log_id < u64::MAX,
        ensures
            final(self).wf(),
            final(self)@.audit_log.len() > 0,
            is_audit_entry(
                final(self)@.audit_log.last(),
                old(self)@.next_audit_log_id,
                now,
                actor,
                action@,
                target_type@,
                target_id@,
            ),
            final(self)@.audit_log.last().details == details,
            final(self)@ == old(self)@.with_audit_entry(final(self)@.audit_log.last()),
            old(self)@.consistent() ==> final(self)@.consistent(),
            old(self)@.consistent() && old(self)@.contacts_indexed()
                ==> final(self)@.contacts_indexed(),
    {
        let entry = AuditLogEntry {
            id: self.next_audit_log_id,
            timestamp: now,
            actor,
            action: action.to_string(),
            target_type: target_type.to_string(),
            target_id: target_id.to_string(),
            details,
        };
        self.next_audit_log_id += 1;
        self.audit_log.push(entry);
        prune(&mut self.audit_log, LOG_CAPACITY, LOG_PRUNE_BATCH);
        proof {
            if old(self)@.consistent() {
                lemma_same_records(old(self)@, self@);
            }
        }
    }

    /// The entries of the audit log that pass every filter that is set, the
    /// newest first, and no more of them than `limit`, or than 100.
    pub fn get_audit_log(
        &self,
        action_filter: Option<&str>,
        target_type_filter: Option<&str>,
        actor_filter: Option<&Principal>,
        limit: Option<u64>,
    ) -> (r: Vec<AuditLogEntry>)
        ensures
            r@ == self@.audit_query(
                text_wanted(action_filter),
                text_wanted(target_type_filter),
                principal_wanted(actor_filter),
                limit,
            ),
    {
        let bound: u64 = match limit {
            Some(l) => l,
            None => DEFAULT_QUERY_LIMIT,
        };
        let ghost pred = audit_filter(
            text_wanted(action_filter),
            text_wanted(target_type_filter),
            principal_wanted(actor_filter),
        );
        let ghost newest = self.audit_log@.reverse();
        let n: usize = self.audit_log.len();
        let mut out: Vec<AuditLogEntry> = Vec::new();
        let mut j: usize = 0;
        proof {
            lemma_filter_none(newest.take(0), pred);
        }
        while j < n && (out.len() as u64) < bound
            invariant
                n == self.audit_log@.len(),
                newest == self.audit_log@.reverse(),
                pred == audit_filter(
                    text_wanted(action_filter),
                    text_wanted(target_type_filter),
                    principal_wanted(actor_filter),
                ),
                j <= n,
                out@ == newest.take(j as int).filter(pred),
                out@.len() <= bound,
            decreases n - j,
        {
            let e = &self.audit_log[n - 1 - j];
            proof {
                lemma_filter_step(newest, pred, j as int);
                assert(newest[j as int] == *e);
            }
            if passes_audit(e, action_filter, target_type_filter, actor_filter) {
                out.push(e.clone());
            }
            j += 1;
        }
        proof {
            lemma_filter_prefix(newest, pred, j as int);
            if j == n {
                assert(newest.take(j as int) =~= newest);
            }
        }
        out
    }

    /// Writes what a user did to the activity log.
    pub fn log_activity(
        &mut self,
        user_id: String,
        action: String,
        metadata: Option<String>,
        now: Timestamp,
    )
        requires
            old(self).wf(),
        ensures
            final(self).wf(),
            final(self)@ == (StateView {
                activity_log: bounded(
                    old(self)@.activity_log.push(
                        UserActivity { user_id, action, metadata, timestamp: now },
                    ),
                    LOG_CAPACITY as nat,
                    LOG_PRUNE_BATCH as nat,
                ),
                ..old(self)@
            }),
            old(self)@.consistent() ==> final(self)@.consistent(),
            old(self)@.consistent() && old(self)@.contacts_indexed()
                ==> final(self)@.contacts_indexed(),
    {
        let activity = UserActivity { user_id, action, metadata, timestamp: now };
        self.activity_log.push(activity);
        prune(&mut self.activity_log, LOG_CAPACITY, LOG_PRUNE_BATCH);
    }

    /// The number of entries in the activity log.
    pub fn activity_count(&self) -> (n: usize)
        ensures
            n == self@.activity_log.len(),
    {
        self.activity_log.len()
    }

    /// Adds a snapshot to the history of metrics.
    pub fn record_metrics(&mut self, snapshot: MetricsSnapshot)
        requires
            old(self).wf(),
        ensures
            final(self).wf(),
            final(self)@ == (StateView {
                metrics_history: bounded(
                    old(self)@.metrics_history.push(snapshot),
                    METRICS_CAPACITY as nat,
                    METRICS_PRUNE_BATCH as nat,
                ),
                ..old(self)@
            }),
            old(self)@.consistent() ==> final(self)@.consistent(),
            old(self)@.consistent() && old(self)@.contacts_indexed()
                ==> final(self)@.contacts_indexed(),
    {
        self.metrics_history.push(snapshot);
        prune(&mut self.metrics_history, METRICS_CAPACITY, METRICS_PRUNE_BATCH);
    }

    /// The snapshots taken from `from` to `to`, the newest first, and no more
    /// of them than `limit`, or than 100.
    pub fn list_metrics(&self, from: Timestamp, to: Timestamp, limit: Option<u64>) -> (r: Vec<
        MetricsSnapshot,
    >)
        ensures
            r@ == self@.metrics_query(from, to, limit),
    {
        let bound: u64 = match limit {
            Some(l) => l,
            None => DEFAULT_QUERY_LIMIT,
        };
        let ghost history = self.metrics_history@;
        let ghost pred = taken_within(from, to);
        let n: usize = self.metrics_history.len();
        let mut sorted: Vec<MetricsSnapshot> = Vec::new();
        let mut i: usize = 0;
        proof {
            lemma_filter_none(history.take(0), pred);
        }
        while i < n
            invariant
                history == self.metrics_history@,
                n == history.len(),
                pred == taken_within(from, to),
                i <= n,
                sorted@ == newest_first(history.take(i as int).filter(pred)),
                descending(sorted@),
            decreases n - i,
        {
            let m: MetricsSnapshot = self.metrics_history[i];
            proof {
                lemma_filter_step(history, pred, i as int);
            }
            if from <= m.timestamp && m.timestamp <= to {
                let ghost earlier = sorted@;
                let mut k: usize = sorted.len();
                while k > 0 && sorted[k - 1].timestamp < m.timestamp
                    invariant
                        sorted@ == earlier,
                        k <= sorted@.len(),
                        forall|x: int| k <= x < sorted@.len() ==> sorted@[x].timestamp < m.timestamp,
                    decreases k,
                {
                    k -= 1;
                }
                proof {
                    assert forall|x: int| 0 <= x < k implies earlier[x].timestamp
                        >= m.timestamp by {
                        assert(earlier[x].timestamp >= earlier[k - 1].timestamp);
                    }
                    lemma_descending_split(earlier, m.timestamp, k as int);
                    let grown = history.take(i as int).filter(pred).push(m);
                    assert(grown.drop_last() =~= history.take(i as int).filter(pred));
                    assert(grown.last() == m);
                }
                sorted.insert(k, m);
                proof {
                    assert(sorted@ =~= earlier.take(k as int).push(m) + earlier.skip(k as int));
                }
            }
            i += 1;
        }
        proof {
            assert(history.take(n as int) =~= history);
        }
        if (sorted.len() as u64) > bound {
            sorted.truncate(bound as usize);
        }
        sorted
    }

    /// The snapshot that was added last.
    pub fn get_latest_metrics(&self) -> (r: Option<MetricsSnapshot>)
        ensures
            r == (if self@.metrics_history.len() > 0 {
                Some(self@.metrics_history.last())
            } else {
                None
            }),
    {
        let n: usize = self.metrics_history.len();
        if n > 0 {
            Some(self.metrics_history[n - 1])
        } else {
            None
        }
    }
}

} // verus!
