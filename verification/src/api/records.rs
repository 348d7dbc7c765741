//! Calls on the ledger, the feature flags, the activity log and the metrics.

use vstd::prelude::*;
use crate::api::{
    admin_or_canister_required, admin_required, audited, refused, require_admin,
    require_authorized_canister_or_admin, role_texts, serves_one_of,
};
use crate::api::contacts::pagination_asked;
use crate::details::{
    json_text, new_details, no_fields, percentage_or_null, put_bool, put_optional_percentage,
    put_text, render, DetailValue,
};
use crate::principal::Principal;
use crate::seqs::{bounded, page};
use crate::state::{State, StateView};
use crate::state::flags::lists_flags;
use crate::state::ledger::is_new_transaction;
use crate::state::limiter::{rate_limit_message, swept, window_start};
use crate::state::logs::{LOG_CAPACITY, LOG_PRUNE_BATCH, METRICS_CAPACITY, METRICS_PRUNE_BATCH};
use crate::types::{
    AdminPermission, AdminStats, CreateTransactionRequest, FeatureFlag, FeatureFlagView,
    FinancialSummary, MetricsSnapshot, PaginatedResponse, PaginationParams, SetFeatureFlagRequest,
    Timestamp, Transaction, TransactionFilter, UserActivity,
};

verus! {

/// Records a transaction. Only an admin may.
pub fn create_transaction(
    state: &mut State,
    caller: &Principal,
    now: Timestamp,
    request: CreateTransactionRequest,
) -> (r: Result<Transaction, String>)
    requires
        old(state).wf(),
        old(state)@.next_transaction_id < u64::MAX,
    ensures
        final(state).wf(),
        r is Ok <==> old(state)@.is_admin(*caller),
        match r {
            Ok(t) => is_new_transaction(t, old(state)@.next_transaction_id, request, now)
                && final(state)@ == (StateView {
                transactions: old(state)@.transactions.insert(t.id, t),
                next_transaction_id: (t.id + 1) as u64,
                ..old(state)@
            }),
            Err(e) => e@ == admin_required() && final(state)@ == old(state)@,
        },
        old(state)@.consistent() ==> final(state)@.consistent(),
        old(state)@.consistent() && old(state)@.contacts_indexed()
            ==> final(state)@.contacts_indexed(),
{
    require_admin(state, caller)?;
    Ok(state.create_transaction(request, now))
}

/// One page of the transactions that pass the filter. Only an admin may ask.
pub fn get_transactions(
    state: &State,
    caller: &Principal,
    filter: Option<TransactionFilter>,
    pagination: Option<PaginationParams>,
) -> (r: Result<PaginatedResponse<Transaction>, String>)
    ensures
        r is Ok <==> state@.is_admin(*caller),
        r is Err ==> refused(r, admin_required()),
        r matches Ok(p) ==> {
            &&& p.items@ == page(
                state@.transactions_for(filter),
                pagination_asked(pagination).offset_or_default(),
                pagination_asked(pagination).limit_or_default(),
            )
            &&& p.total == state@.transactions_for(filter).len()
            &&& p.offset == pagination_asked(pagination).offset_or_default()
            &&& p.limit == pagination_asked(pagination).limit_or_default()
        },
{
    require_admin(state, caller)?;
    let asked: PaginationParams = match pagination {
        Some(p) => p,
        None => PaginationParams { offset: Some(0), limit: Some(50) },
    };
    Ok(state.get_transactions(filter, asked))
}

/// The summary of the transactions dated from `from` to `to`. Only an admin
/// may ask; who is none is refused whatever the sums are.
pub fn get_financial_summary(
    state: &State,
    caller: &Principal,
    from: Timestamp,
    to: Timestamp,
) -> (r: Result<FinancialSummary, String>)
    requires
        state@.is_admin(*caller) ==> state@.summary_fits(from, to),
    ensures
        r is Ok <==> state@.is_admin(*caller),
        r is Ok ==> r->Ok_0 == state@.summary(from, to),
        r is Err ==> refused(r, admin_required()),
{
    require_admin(state, caller)?;
    Ok(state.get_financial_summary(from, to))
}

/// What the setting of a flag without the right to it is refused with.
pub open spec fn flag_permission_required() -> Seq<char> {
    "Unauthorized: ManageFeatureFlags permission required"@
}

/// What the setting of a flag is refused with, if it is.
pub open spec fn set_flag_refusal(v: StateView, caller: Principal) -> Option<Seq<char>> {
    if !v.is_admin(caller) {
        Some(admin_required())
    } else if !v.has_permission(caller, AdminPermission::ManageFeatureFlags) {
        Some(flag_permission_required())
    } else {
        None
    }
}

/// What the flag was before it was set, as the audit log tells it.
pub open spec fn old_flag_details(flag: FeatureFlagView) -> Map<Seq<char>, DetailValue> {
    no_fields().insert("enabled"@, DetailValue::Bool(flag.enabled)).insert(
        "percentage"@,
        percentage_or_null(flag.percentage),
    )
}

/// The text that tells what the flag `key` was before: its details, or `null`.
pub open spec fn old_flag_text(v: StateView, key: Seq<char>) -> Seq<char> {
    if v.feature_flags.contains_key(key) {
        json_text(old_flag_details(v.feature_flags[key]))
    } else {
        "null"@
    }
}

/// The details of the setting of a flag.
pub open spec fn set_flag_details(v: StateView, request: SetFeatureFlagRequest) -> Map<
    Seq<char>,
    DetailValue,
> {
    no_fields().insert("old_value"@, DetailValue::Text(old_flag_text(v, request.key@))).insert(
        "new_enabled"@,
        DetailValue::Bool(request.enabled),
    ).insert("new_percentage"@, percentage_or_null(request.percentage))
}

/// Sets a feature flag. Only an admin with the right to manage flags may.
pub fn set_feature_flag(
    state: &mut State,
    caller: Principal,
    now: Timestamp,
    request: SetFeatureFlagRequest,
) -> (r: Result<(), String>)
    requires
        old(state).wf(),
        old(state)@.next_audit_log_id < u64::MAX,
    ensures
        final(state).wf(),
        match set_flag_refusal(old(state)@, caller) {
            Some(message) => refused(r, message) && final(state)@ == old(state)@,
            None => r is Ok && audited(
                StateView {
                    feature_flags: old(state)@.feature_flags.insert(
                        request.key@,
                        StateView::new_flag(request, now),
                    ),
                    ..old(state)@
                },
                final(state)@,
                now,
                caller,
                "set_feature_flag"@,
                "feature_flag"@,
                request.key@,
                set_flag_details(old(state)@, request),
            ),
        },
        old(state)@.consistent() ==> final(state)@.consistent(),
        old(state)@.consistent() && old(state)@.contacts_indexed()
            ==> final(state)@.contacts_indexed(),
{
    require_admin(state, &caller)?;
    if !state.has_permission(&caller, &AdminPermission::ManageFeatureFlags) && !state.is_controller(
        &caller,
    ) {
        return Err("Unauthorized: ManageFeatureFlags permission required".to_string());
    }
    let old_value: String = match state.get_feature_flag(request.key.as_str()) {
        Some(flag) => {
            let mut old_details = new_details();
            put_bool(&mut old_details, "enabled", flag.enabled);
            put_optional_percentage(&mut old_details, "percentage", flag.percentage);
            render(old_details)
        },
        None => "null".to_string(),
    };
    let mut details = new_details();
    put_text(&mut details, "old_value", old_value.as_str());
    put_bool(&mut details, "new_enabled", request.enabled);
    put_optional_percentage(&mut details, "new_percentage", request.percentage);
    let key = request.key.clone();
    state.set_feature_flag(request, now);
    state.record_audit_log(
        caller,
        "set_feature_flag",
        "feature_flag",
        key.as_str(),
        Some(render(details)),
        now,
    );
    Ok(())
}

/// The flag `key`. Anybody may ask.
pub fn get_feature_flag(state: &State, key: String) -> (r: Option<FeatureFlag>)
    requires
        state.wf(),
    ensures
        match r {
            Some(f) => state@.feature_flags.contains_key(key@) && f@ == state@.feature_flags[key@],
            None => !state@.feature_flags.contains_key(key@),
        },
{
    match state.get_feature_flag(key.as_str()) {
        Some(f) => Some(f.clone()),
        None => None,
    }
}

/// Whether the flag `key` gives the caller the feature. Anybody may ask.
pub fn is_feature_enabled(state: &State, caller: &Principal, key: String) -> (r: bool)
    requires
        state.wf(),
    ensures
        r == state@.feature_enabled(key@, *caller),
{
    state.is_feature_enabled(key.as_str(), caller)
}

/// All flags, in the order of their keys. Only an admin may ask.
pub fn list_feature_flags(state: &State, caller: &Principal) -> (r: Result<
    Vec<FeatureFlag>,
    String,
>)
    requires
        state.wf(),
    ensures
        r is Ok <==> state@.is_admin(*caller),
        r is Ok ==> lists_flags(r->Ok_0@, state@.feature_flags),
        r is Err ==> refused(r, admin_required()),
{
    require_admin(state, caller)?;
    Ok(state.list_feature_flags())
}

/// The number of activities after which the rate limiter is swept.
pub const SWEEP_INTERVAL: usize = 100;

/// The roles of the services that may report activity.
pub open spec fn activity_roles() -> Seq<Seq<char>> {
    seq!["user-service"@, "auth-service"@, "frontend"@]
}

/// Whether `caller` may report activity: as an admin, or as the trusted
/// service of one of the roles that may.
pub open spec fn may_report_activity(v: StateView, caller: Principal) -> bool {
    v.is_admin(caller) || serves_one_of(v, activity_roles(), caller)
}

/// The store after an activity has been logged: the activity is in the
/// log, and the rate limiter is swept whenever the log's length is a
/// multiple of 100.
pub open spec fn with_activity(v: StateView, activity: UserActivity, now: Timestamp) -> StateView {
    let log = bounded(v.activity_log.push(activity), LOG_CAPACITY as nat, LOG_PRUNE_BATCH as nat);
    StateView {
        activity_log: log,
        rate_limit_buckets: if log.len() % (SWEEP_INTERVAL as nat) == 0 {
            swept(v.rate_limit_buckets, window_start(now))
        } else {
            v.rate_limit_buckets
        },
        ..v
    }
}

/// Writes what a user did to the activity log. An admin may report
/// activity, and a trusted service that reports it; no more than 100 times
/// a minute each.
pub fn log_activity(
    state: &mut State,
    caller: Principal,
    now: Timestamp,
    user_id: String,
    action: String,
    metadata: Option<String>,
) -> (r: Result<(), String>)
    requires
        old(state).wf(),
    ensures
        final(state).wf(),
        if !may_report_activity(old(state)@, caller) {
            refused(r, admin_or_canister_required()) && final(state)@ == old(state)@
        } else if !old(state)@.within_limit(caller, now) {
            refused(r, rate_limit_message()) && final(state)@ == old(state)@.after_rate_check(
                caller,
                now,
            )
        } else {
            r is Ok && final(state)@ == with_activity(
                old(state)@.after_rate_check(caller, now),
                UserActivity { user_id, action, metadata, timestamp: now },
                now,
            )
        },
        old(state)@.consistent() ==> final(state)@.consistent(),
        old(state)@.consistent() && old(state)@.contacts_indexed()
            ==> final(state)@.contacts_indexed(),
{
    let roles: [&str; 3] = ["user-service", "auth-service", "frontend"];
    proof {
        assert(role_texts(roles@) =~= activity_roles());
    }
    require_authorized_canister_or_admin(state, roles.as_slice(), &caller)?;
    state.check_rate_limit(&caller, now)?;
    state.log_activity(user_id, action, metadata, now);
    if state.activity_count() % SWEEP_INTERVAL == 0 {
        state.cleanup_rate_limits(now);
    }
    Ok(())
}

/// Adds a snapshot to the history of metrics. Only an admin may.
pub fn record_metrics(state: &mut State, caller: &Principal, snapshot: MetricsSnapshot) -> (r: Result<
    (),
    String,
>)
    requires
        old(state).wf(),
    ensures
        final(state).wf(),
        r is Ok <==> old(state)@.is_admin(*caller),
        r is Ok ==> final(state)@ == (StateView {
            metrics_history: bounded(
                old(state)@.metrics_history.push(snapshot),
                METRICS_CAPACITY as nat,
                METRICS_PRUNE_BATCH as nat,
            ),
            ..old(state)@
        }),
        r is Err ==> refused(r, admin_required()) && final(state)@ == old(state)@,
        old(state)@.consistent() ==> final(state)@.consistent(),
        old(state)@.consistent() && old(state)@.contacts_indexed()
            ==> final(state)@.contacts_indexed(),
{
    require_admin(state, caller)?;
    state.record_metrics(snapshot);
    Ok(())
}

/// The snapshots taken from `from` to `to`, the newest first. Only an admin
/// may ask.
pub fn list_metrics(
    state: &State,
    caller: &Principal,
    from: Timestamp,
    to: Timestamp,
    limit: Option<u64>,
) -> (r: Result<Vec<MetricsSnapshot>, String>)
    ensures
        r is Ok <==> state@.is_admin(*caller),
        r is Ok ==> r->Ok_0@ == state@.metrics_query(from, to, limit),
        r is Err ==> refused(r, admin_required()),
{
    require_admin(state, caller)?;
    Ok(state.list_metrics(from, to, limit))
}

/// The snapshot that was added last. Only an admin may ask.
pub fn get_latest_metrics(state: &State, caller: &Principal) -> (r: Result<
    Option<MetricsSnapshot>,
    String,
>)
    ensures
        r is Ok <==> state@.is_admin(*caller),
        r is Ok ==> r->Ok_0 == (if state@.metrics_history.len() > 0 {
            Some(state@.metrics_history.last())
        } else {
            None
        }),
        r is Err ==> refused(r, admin_required()),
{
    require_admin(state, caller)?;
    Ok(state.get_latest_metrics())
}

/// How many records the store holds. Only an admin may ask.
pub fn get_admin_stats(state: &State, caller: &Principal) -> (r: Result<AdminStats, String>)
    requires
        state.wf(),
    ensures
        r is Ok <==> state@.is_admin(*caller),
        r is Ok ==> r->Ok_0 == state@.stats(),
        r is Err ==> refused(r, admin_required()),
{
    require_admin(state, caller)?;
    Ok(state.stats())
}

} // verus!
