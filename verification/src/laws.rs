//! Laws of the store: what the rate limiter, the feature flags and the
//! grants of rights do on every input.

use vstd::prelude::*;
use crate::principal::Principal;
use crate::seqs::{lemma_filter_all, lemma_filter_members};
use crate::state::{RATE_LIMIT_MAX_CALLS, RATE_LIMIT_WINDOW_NS, StateView};
use crate::state::flags::{flag_enabled_for, rollout_bucket};
use crate::state::limiter::window_start;
use crate::types::{AdminPermission, FeatureFlagView};

verus! {

/// After an identity has asked to call, its bucket holds no call that is
/// older than the window.
pub proof fn lemma_bucket_holds_no_expired_call(v: StateView, p: Principal, now: u64)
    ensures
        forall|i: int|
            0 <= i < v.after_rate_check(p, now).bucket(p).len() ==> (#[trigger] v.after_rate_check(
                p,
                now,
            ).bucket(p)[i]) >= window_start(now),
{
    let live = v.calls_in_window(p, now);
    lemma_filter_members(v.bucket(p), |t: u64| t >= window_start(now));
    let after = v.after_rate_check(p, now).bucket(p);
    assert forall|i: int|
        0 <= i < after.len() implies (#[trigger] after[i]) >= window_start(now) by {
        if i < live.len() {
            assert(after[i] == live[i]);
        }
    }
}

/// With 100 calls of an identity in the window its next call is refused,
/// and not counted.
pub proof fn lemma_full_window_refuses(v: StateView, p: Principal, now: u64)
    requires
        v.calls_in_window(p, now).len() >= RATE_LIMIT_MAX_CALLS,
    ensures
        !v.within_limit(p, now),
        v.after_rate_check(p, now).bucket(p) == v.calls_in_window(p, now),
{
}

/// Once every call of an identity is older than the window its next call is
/// let through, and the bucket holds that call alone.
pub proof fn lemma_expired_window_admits(v: StateView, p: Principal, now: u64)
    requires
        forall|i: int| 0 <= i < v.bucket(p).len() ==> (#[trigger] v.bucket(p)[i]) < window_start(now),
    ensures
        v.within_limit(p, now),
        v.after_rate_check(p, now).bucket(p) == seq![now],
{
    let keep = |t: u64| t >= window_start(now);
    lemma_filter_members(v.bucket(p), keep);
    let live = v.calls_in_window(p, now);
    if live.len() > 0 {
        assert(keep(live[0]));
        assert(v.bucket(p).contains(live[0]));
    }
    assert(live =~= Seq::<u64>::empty());
    assert(live.push(now) =~= seq![now]);
}

/// The store after an identity has asked to call at each of `times` in turn.
pub open spec fn after_calls(v: StateView, p: Principal, times: Seq<u64>) -> StateView
    decreases times.len(),
{
    if times.len() == 0 {
        v
    } else {
        after_calls(v, p, times.drop_last()).after_rate_check(p, times.last())
    }
}

/// Of the calls that an identity with an empty bucket makes within one
/// window, the first 100 are let through and every later one is refused.
pub proof fn lemma_hundred_calls_a_window(v: StateView, p: Principal, times: Seq<u64>)
    requires
        v.bucket(p).len() == 0,
        times.len() > 0,
        forall|i: int, j: int| 0 <= i <= j < times.len() ==> times[i] <= times[j],
        times.last() - times[0] <= RATE_LIMIT_WINDOW_NS,
    ensures
        after_calls(v, p, times.drop_last()).within_limit(p, times.last()) <==> times.len()
            <= RATE_LIMIT_MAX_CALLS,
        after_calls(v, p, times).bucket(p) == (if times.len() <= RATE_LIMIT_MAX_CALLS {
            times
        } else {
            times.take(RATE_LIMIT_MAX_CALLS as int)
        }),
    decreases times.len(),
{
    let earlier = times.drop_last();
    let now = times.last();
    let before = after_calls(v, p, earlier);
    if earlier.len() > 0 {
        assert(earlier[0] == times[0]);
        assert(earlier.last() == times[times.len() - 2]);
        assert forall|i: int, j: int|
            0 <= i <= j < earlier.len() implies earlier[i] <= earlier[j] by {
            assert(earlier[i] == times[i]);
            assert(earlier[j] == times[j]);
        }
        lemma_hundred_calls_a_window(v, p, earlier);
    } else {
        assert(before == v);
    }
    let bucket = before.bucket(p);
    assert(bucket =~= if earlier.len() <= RATE_LIMIT_MAX_CALLS {
        earlier
    } else {
        earlier.take(RATE_LIMIT_MAX_CALLS as int)
    });
    let keep = |t: u64| t >= window_start(now);
    assert forall|i: int| 0 <= i < bucket.len() implies keep(#[trigger] bucket[i]) by {
        assert(bucket[i] == times[i]);
        assert(times[0] <= times[i]);
    }
    lemma_filter_all(bucket, keep);
    if times.len() <= RATE_LIMIT_MAX_CALLS {
        assert(earlier.push(now) =~= times);
    } else if earlier.len() == RATE_LIMIT_MAX_CALLS {
        assert(earlier =~= times.take(RATE_LIMIT_MAX_CALLS as int));
    } else {
        assert(earlier.take(RATE_LIMIT_MAX_CALLS as int) =~= times.take(RATE_LIMIT_MAX_CALLS as int));
    }
}

/// An enabled flag with a percentage of 100 and no allow-list gives
/// everybody the feature.
pub proof fn lemma_full_rollout(flag: FeatureFlagView, p: Principal)
    requires
        flag.enabled,
        flag.allowed_principals.len() == 0,
        flag.percentage == Some(100u8),
    ensures
        flag_enabled_for(flag, p),
{
}

/// A flag with a percentage of 0 and no allow-list gives nobody the feature.
pub proof fn lemma_no_rollout(flag: FeatureFlagView, p: Principal)
    requires
        flag.allowed_principals.len() == 0,
        flag.percentage == Some(0u8),
    ensures
        !flag_enabled_for(flag, p),
{
}

/// An enabled flag gives an identity on its allow-list the feature,
/// whatever its percentage.
pub proof fn lemma_allow_list_decides(flag: FeatureFlagView, p: Principal)
    requires
        flag.enabled,
        flag.allowed_principals.contains(p),
    ensures
        flag_enabled_for(flag, p),
{
}

/// The same identity falls into the same bucket, which is below 100.
pub proof fn lemma_rollout_bucket(p: Principal)
    ensures
        rollout_bucket(p) < 100,
{
}

/// Granting a right that the identity has been granted before changes nothing.
pub proof fn lemma_grant_held(v: StateView, p: Principal, permission: AdminPermission)
    requires
        v.granted(p).contains(permission),
    ensures
        v.grant(p, permission) == v,
        v.grant(p, permission).granted(p).len() == v.granted(p).len(),
{
    assert(v.admin_permissions.contains_key(p));
    assert(v.grant(p, permission).admin_permissions =~= v.admin_permissions);
}

/// Granting a right twice is granting it once.
pub proof fn lemma_grant_twice(v: StateView, p: Principal, permission: AdminPermission)
    ensures
        v.grant(p, permission).granted(p).contains(permission),
        v.grant(p, permission).grant(p, permission) == v.grant(p, permission),
{
    let w = v.grant(p, permission);
    if v.granted(p).contains(permission) {
    } else {
        let grown = v.granted(p).push(permission);
        assert(grown[grown.len() - 1] == permission);
    }
    lemma_grant_held(w, p, permission);
}

/// Making an identity an admin that is one already changes nothing, and
/// making it an admin twice is making it one once.
pub proof fn lemma_admin_once(v: StateView, p: Principal)
    ensures
        v.admins.contains(p) ==> v.with_admin(p) == v,
        v.with_admin(p).admins.contains(p),
        v.with_admin(p).with_admin(p) == v.with_admin(p),
        v.with_admin(p).with_admin(p).admins.len() == v.with_admin(p).admins.len(),
{
    if !v.admins.contains(p) {
        let grown = v.admins.push(p);
        assert(grown[grown.len() - 1] == p);
    }
}

} // verus!
