//! Calls on deals.

use vstd::prelude::*;
use crate::api::{admin_required, allowed, audited, may_act, refused, require_admin};
use crate::api::contacts::{contact_missing, pagination_asked};
use crate::details::{
    new_details, no_fields, number_or_null, put_number, put_optional_number, put_text, render,
    DetailValue,
};
use crate::principal::Principal;
use crate::seqs::page;
use crate::state::{State, StateView};
use crate::state::deals::updated_deal;
use crate::text::{decimal, decimal_text};
use crate::types::{
    AdminPermission, CreateDealRequest, Deal, DealFilter, DealId, DealStage, PaginatedResponse,
    PaginationParams, Timestamp, UpdateDealRequest,
};

verus! {

/// What a call on a deal that does not exist is refused with.
pub open spec fn deal_missing() -> Seq<char> {
    "Deal not found"@
}

/// What a move of somebody else's deal is refused with.
pub open spec fn deal_stage_refused() -> Seq<char> {
    "Unauthorized: Cannot update this deal"@
}

/// What a change of somebody else's deal is refused with.
pub open spec fn deal_edit_refused() -> Seq<char> {
    "Unauthorized: Cannot edit this deal"@
}

/// What the deletion of somebody else's deal is refused with.
pub open spec fn deal_delete_refused() -> Seq<char> {
    "Unauthorized: Cannot delete this deal"@
}

/// The details of the creation of a deal.
pub open spec fn created_deal_details(request: CreateDealRequest) -> Map<Seq<char>, DetailValue> {
    no_fields().insert("contact_id"@, DetailValue::Number(request.contact_id)).insert(
        "name"@,
        DetailValue::Text(request.name@),
    ).insert("value"@, number_or_null(request.value))
}

/// The details of a move of a deal.
pub open spec fn moved_deal_details(from: DealStage, to: DealStage) -> Map<Seq<char>, DetailValue> {
    no_fields().insert("old_stage"@, DetailValue::Text(from.name_text())).insert(
        "new_stage"@,
        DetailValue::Text(to.name_text()),
    )
}

/// The details of a change of a deal: what it was before.
pub open spec fn changed_deal_details(d: Deal) -> Map<Seq<char>, DetailValue> {
    no_fields().insert("name"@, DetailValue::Text(d.name@)).insert(
        "value"@,
        number_or_null(d.value),
    ).insert("stage"@, DetailValue::Text(d.stage.name_text()))
}

/// The details of the deletion of a deal.
pub open spec fn deleted_deal_details(d: Deal) -> Map<Seq<char>, DetailValue> {
    no_fields().insert("name"@, DetailValue::Text(d.name@)).insert(
        "value"@,
        number_or_null(d.value),
    ).insert("contact_id"@, DetailValue::Number(d.contact_id))
}

/// What the creation of a deal is refused with, if it is.
pub open spec fn create_deal_refusal(v: StateView, caller: Principal, request: CreateDealRequest) -> Option<
    Seq<char>,
> {
    if !v.is_admin(caller) {
        Some(admin_required())
    } else if !v.contacts.contains_key(request.contact_id) {
        Some(contact_missing())
    } else {
        None
    }
}

/// Creates a deal that the caller owns, with an existing contact. Only an
/// admin may.
pub fn create_deal(
    state: &mut State,
    caller: Principal,
    now: Timestamp,
    request: CreateDealRequest,
) -> (r: Result<Deal, String>)
    requires
        old(state).wf(),
        old(state)@.next_deal_id < u64::MAX,
        old(state)@.next_audit_log_id < u64::MAX,
    ensures
        final(state).wf(),
        match create_deal_refusal(old(state)@, caller, request) {
            Some(message) => refused(r, message) && final(state)@ == old(state)@,
            None => r is Ok && r->Ok_0 == old(state)@.new_deal(request, caller, now) && audited(
                old(state)@.with_deal(r->Ok_0),
                final(state)@,
                now,
                caller,
                "create_deal"@,
                "deal"@,
                decimal_text(r->Ok_0.id as nat),
                created_deal_details(request),
            ),
        },
        old(state)@.consistent() ==> final(state)@.consistent(),
        old(state)@.consistent() && old(state)@.contacts_indexed()
            ==> final(state)@.contacts_indexed(),
{
    require_admin(state, &caller)?;
    let mut details = new_details();
    put_number(&mut details, "contact_id", request.contact_id);
    put_text(&mut details, "name", request.name.as_str());
    put_optional_number(&mut details, "value", request.value);
    let deal = state.create_deal(request, caller, now)?;
    state.record_audit_log(
        caller,
        "create_deal",
        "deal",
        decimal(deal.id).as_str(),
        Some(render(details)),
        now,
    );
    Ok(deal)
}

/// The deal with the number `id`. Only an admin may ask.
pub fn get_deal(state: &State, caller: &Principal, id: DealId) -> (r: Result<Option<Deal>, String>)
    ensures
        r is Ok <==> state@.is_admin(*caller),
        r is Ok ==> r->Ok_0 == state@.deal(id),
        r is Err ==> refused(r, admin_required()),
{
    require_admin(state, caller)?;
    match state.get_deal(id) {
        Some(d) => Ok(Some(d.clone())),
        None => Ok(None),
    }
}

/// What a call that changes the deal `id` is refused with, if it is;
/// `denied` is the message for somebody else's deal.
pub open spec fn edit_deal_refusal(v: StateView, caller: Principal, id: DealId, denied: Seq<char>) -> Option<
    Seq<char>,
> {
    if !v.is_admin(caller) {
        Some(admin_required())
    } else if !v.deals.contains_key(id) {
        Some(deal_missing())
    } else if !may_act(
        v,
        caller,
        AdminPermission::EditAllDeals,
        AdminPermission::EditOwnDeals,
        v.deals[id].owner_id,
    ) {
        Some(denied)
    } else {
        None
    }
}

/// Moves a deal to another stage. An admin may move its own deals with the
/// right to change them, and every deal with the right to change all.
pub fn update_deal_stage(
    state: &mut State,
    caller: Principal,
    now: Timestamp,
    id: DealId,
    stage: DealStage,
) -> (r: Result<Deal, String>)
    requires
        old(state).wf(),
        old(state)@.next_audit_log_id < u64::MAX,
    ensures
        final(state).wf(),
        match edit_deal_refusal(old(state)@, caller, id, deal_stage_refused()) {
            Some(message) => refused(r, message) && final(state)@ == old(state)@,
            None => r is Ok && r->Ok_0 == (Deal {
                stage,
                updated_at: now,
                ..old(state)@.deals[id]
            }) && audited(
                StateView { deals: old(state)@.deals.insert(id, r->Ok_0), ..old(state)@ },
                final(state)@,
                now,
                caller,
                "update_deal_stage"@,
                "deal"@,
                decimal_text(id as nat),
                moved_deal_details(old(state)@.deals[id].stage, stage),
            ),
        },
        old(state)@.consistent() ==> final(state)@.consistent(),
        old(state)@.consistent() && old(state)@.contacts_indexed()
            ==> final(state)@.contacts_indexed(),
{
    require_admin(state, &caller)?;
    let mut details = new_details();
    match state.get_deal(id) {
        Some(deal) => {
            if !allowed(
                state,
                &caller,
                AdminPermission::EditAllDeals,
                AdminPermission::EditOwnDeals,
                deal.owner_id,
            ) {
                return Err("Unauthorized: Cannot update this deal".to_string());
            }
            put_text(&mut details, "old_stage", deal.stage.name());
            put_text(&mut details, "new_stage", stage.name());
        },
        None => {
            return Err("Deal not found".to_string());
        },
    }
    match state.update_deal_stage(id, stage, now) {
        Some(updated) => {
            state.record_audit_log(
                caller,
                "update_deal_stage",
                "deal",
                decimal(id).as_str(),
                Some(render(details)),
                now,
            );
            Ok(updated)
        },
        None => Err("Failed to update deal stage".to_string()),
    }
}

/// Changes the fields of a deal that are given. An admin may change its own
/// deals with the right to, and every deal with the right to change all.
pub fn update_deal(
    state: &mut State,
    caller: Principal,
    now: Timestamp,
    request: UpdateDealRequest,
) -> (r: Result<Deal, String>)
    requires
        old(state).wf(),
        old(state)@.next_audit_log_id < u64::MAX,
    ensures
        final(state).wf(),
        match edit_deal_refusal(old(state)@, caller, request.id, deal_edit_refused()) {
            Some(message) => refused(r, message) && final(state)@ == old(state)@,
            None => r is Ok && r->Ok_0 == updated_deal(
                old(state)@.deals[request.id],
                request.name,
                request.value,
                request.stage,
                request.notes,
                request.expected_close_date,
                now,
            ) && audited(
                StateView { deals: old(state)@.deals.insert(request.id, r->Ok_0), ..old(state)@ },
                final(state)@,
                now,
                caller,
                "update_deal"@,
                "deal"@,
                decimal_text(request.id as nat),
                changed_deal_details(old(state)@.deals[request.id]),
            ),
        },
        old(state)@.consistent() ==> final(state)@.consistent(),
        old(state)@.consistent() && old(state)@.contacts_indexed()
            ==> final(state)@.contacts_indexed(),
{
    require_admin(state, &caller)?;
    let mut details = new_details();
    match state.get_deal(request.id) {
        Some(deal) => {
            if !allowed(
                state,
                &caller,
                AdminPermission::EditAllDeals,
                AdminPermission::EditOwnDeals,
                deal.owner_id,
            ) {
                return Err("Unauthorized: Cannot edit this deal".to_string());
            }
            put_text(&mut details, "name", deal.name.as_str());
            put_optional_number(&mut details, "value", deal.value);
            put_text(&mut details, "stage", deal.stage.name());
        },
        None => {
            return Err("Deal not found".to_string());
        },
    }
    let id: DealId = request.id;
    match state.update_deal(
        id,
        request.name,
        request.value,
        request.stage,
        request.notes,
        request.expected_close_date,
        now,
    ) {
        Some(updated) => {
            state.record_audit_log(
                caller,
                "update_deal",
                "deal",
                decimal(id).as_str(),
                Some(render(details)),
                now,
            );
            Ok(updated)
        },
        None => Err("Failed to update deal".to_string()),
    }
}

/// What the deletion of a deal is refused with, if it is.
pub open spec fn delete_deal_refusal(v: StateView, caller: Principal, id: DealId) -> Option<Seq<char>> {
    if !v.is_admin(caller) {
        Some(admin_required())
    } else if !v.deals.contains_key(id) {
        Some(deal_missing())
    } else if !may_act(
        v,
        caller,
        AdminPermission::DeleteAllDeals,
        AdminPermission::DeleteOwnDeals,
        v.deals[id].owner_id,
    ) {
        Some(deal_delete_refused())
    } else {
        None
    }
}

/// Deletes a deal. An admin may delete its own deals with the right to,
/// and every deal with the right to delete all. The deletion is written to
/// the audit log before it is done.
pub fn delete_deal(state: &mut State, caller: Principal, now: Timestamp, id: DealId) -> (r: Result<
    Deal,
    String,
>)
    requires
        old(state).wf(),
        old(state)@.next_audit_log_id < u64::MAX,
    ensures
        final(state).wf(),
        match delete_deal_refusal(old(state)@, caller, id) {
            Some(message) => refused(r, message) && final(state)@ == old(state)@,
            None => {
                let logged = old(state)@.with_audit_entry(final(state)@.audit_log.last());
                &&& r is Ok
                &&& r->Ok_0 == old(state)@.deals[id]
                &&& audited(
                    old(state)@,
                    logged,
                    now,
                    caller,
                    "delete_deal"@,
                    "deal"@,
                    decimal_text(id as nat),
                    deleted_deal_details(old(state)@.deals[id]),
                )
                &&& final(state)@ == logged.without_deal(id)
            },
        },
        old(state)@.consistent() ==> final(state)@.consistent(),
        old(state)@.consistent() && old(state)@.contacts_indexed()
            ==> final(state)@.contacts_indexed(),
{
    require_admin(state, &caller)?;
    let mut details = new_details();
    match state.get_deal(id) {
        Some(deal) => {
            if !allowed(
                state,
                &caller,
                AdminPermission::DeleteAllDeals,
                AdminPermission::DeleteOwnDeals,
                deal.owner_id,
            ) {
                return Err("Unauthorized: Cannot delete this deal".to_string());
            }
            put_text(&mut details, "name", deal.name.as_str());
            put_optional_number(&mut details, "value", deal.value);
            put_number(&mut details, "contact_id", deal.contact_id);
        },
        None => {
            return Err("Deal not found".to_string());
        },
    }
    state.record_audit_log(
        caller,
        "delete_deal",
        "deal",
        decimal(id).as_str(),
        Some(render(details)),
        now,
    );
    match state.delete_deal(id) {
        Some(deleted) => Ok(deleted),
        None => Err("Failed to delete deal".to_string()),
    }
}

/// One page of the deals that the caller may see. Only an admin may ask.
pub fn get_deals(
    state: &State,
    caller: &Principal,
    filter: Option<DealFilter>,
    pagination: Option<PaginationParams>,
) -> (r: Result<PaginatedResponse<Deal>, String>)
    requires
        state.wf(),
    ensures
        r is Ok <==> state@.is_admin(*caller),
        r is Err ==> refused(r, admin_required()),
        r matches Ok(p) ==> {
            &&& p.items@ == page(
                state@.deals_for(*caller, filter),
                pagination_asked(pagination).offset_or_default(),
                pagination_asked(pagination).limit_or_default(),
            )
            &&& p.total == state@.deals_for(*caller, filter).len()
            &&& p.offset == pagination_asked(pagination).offset_or_default()
            &&& p.limit == pagination_asked(pagination).limit_or_default()
            &&& !state@.has_permission(*caller, AdminPermission::ViewAllDeals) ==> forall|i: int|
                0 <= i < p.items@.len() ==> (#[trigger] p.items@[i]).owner_id == Some(*caller)
        },
{
    require_admin(state, caller)?;
    let asked: PaginationParams = match pagination {
        Some(p) => p,
        None => PaginationParams { offset: Some(0), limit: Some(50) },
    };
    Ok(state.get_deals(filter, asked, caller))
}

} // verus!
