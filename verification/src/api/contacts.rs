//! Calls on contacts.

use vstd::prelude::*;
use crate::api::{
    admin_required, allowed, audited, canister_required, may_act, refused, require_admin,
    require_authorized_canister,
};
use crate::details::{
    new_details, no_fields, put_number, put_optional_text, put_text, render, text_or_null,
    DetailValue,
};
use crate::principal::Principal;
use crate::seqs::page;
use crate::state::{State, StateView};
use crate::state::contacts::updated_contact;
use crate::text::{decimal, decimal_text, join};
use crate::types::{
    AdminPermission, Contact, ContactFilter, ContactId, ContactSource, CreateContactRequest,
    CreateDealRequest, Deal, DealStage, PaginatedResponse, PaginationParams, Timestamp,
    UpdateContactRequest,
};

verus! {

/// What a call on a contact that does not exist is refused with.
pub open spec fn contact_missing() -> Seq<char> {
    "Contact not found"@
}

/// What a change of somebody else's contact is refused with.
pub open spec fn contact_edit_refused() -> Seq<char> {
    "Unauthorized: Cannot edit this contact"@
}

/// What the deletion of somebody else's contact is refused with.
pub open spec fn contact_delete_refused() -> Seq<char> {
    "Unauthorized: Cannot delete this contact"@
}

/// The role of the service that reports signups.
pub open spec fn signup_role() -> Seq<char> {
    "user-service"@
}

/// The source of a contact, as it is asked for.
pub open spec fn source_asked(request: CreateContactRequest) -> ContactSource {
    match request.source {
        Some(s) => s,
        None => ContactSource::Signup,
    }
}

/// The details of the creation of a contact.
pub open spec fn created_contact_details(request: CreateContactRequest) -> Map<
    Seq<char>,
    DetailValue,
> {
    no_fields().insert("email"@, DetailValue::Text(request.email@)).insert(
        "source"@,
        DetailValue::Text(source_asked(request).name_text()),
    )
}

/// The details of the creation of a contact on a signup.
pub open spec fn signup_contact_details(request: CreateContactRequest) -> Map<Seq<char>, DetailValue> {
    no_fields().insert("source"@, DetailValue::Text("user_signup"@)).insert(
        "user_id"@,
        text_or_null(request.user_id),
    )
}

/// The details of the creation of a deal on a signup.
pub open spec fn signup_deal_details(contact_id: ContactId) -> Map<Seq<char>, DetailValue> {
    no_fields().insert("contact_id"@, DetailValue::Number(contact_id)).insert(
        "source"@,
        DetailValue::Text("auto_signup"@),
    )
}

/// The details of a change of a contact: what it was before.
pub open spec fn changed_contact_details(c: Contact) -> Map<Seq<char>, DetailValue> {
    no_fields().insert("name"@, text_or_null(c.name)).insert(
        "company"@,
        text_or_null(c.company),
    ).insert("status"@, DetailValue::Text(c.status.name_text()))
}

/// The details of the deletion of a contact.
pub open spec fn deleted_contact_details(c: Contact) -> Map<Seq<char>, DetailValue> {
    no_fields().insert("email"@, DetailValue::Text(c.email@)).insert("name"@, text_or_null(c.name))
}

/// Whether `d` is the deal that a signup opens for the contact `contact_id`.
pub open spec fn is_signup_deal(
    d: Deal,
    id: u64,
    contact_id: ContactId,
    caller: Principal,
    now: Timestamp,
) -> bool {
    &&& d.id == id
    &&& d.contact_id == contact_id
    &&& d.name@ == "New signup: Contact #"@ + decimal_text(contact_id as nat)
    &&& d.value is None
    &&& d.stage == DealStage::Lead
    &&& d.notes matches Some(n) && n@ == "Auto-created from user signup"@
    &&& d.expected_close_date is None
    &&& d.owner_id == Some(caller)
    &&& d.created_by == Some(caller)
    &&& d.created_at == now
    &&& d.updated_at == now
}

/// Creates a contact that the caller owns. Only an admin may.
pub fn create_contact(
    state: &mut State,
    caller: Principal,
    now: Timestamp,
    request: CreateContactRequest,
) -> (r: Result<Contact, String>)
    requires
        old(state).wf(),
        old(state)@.next_contact_id < u64::MAX,
        old(state)@.next_audit_log_id < u64::MAX,
    ensures
        final(state).wf(),
        r is Ok <==> old(state)@.is_admin(caller),
        match r {
            Ok(c) => c == old(state)@.new_contact(request, caller, now) && audited(
                old(state)@.with_contact(c),
                final(state)@,
                now,
                caller,
                "create_contact"@,
                "contact"@,
                decimal_text(c.id as nat),
                created_contact_details(request),
            ),
            Err(e) => e@ == admin_required() && final(state)@ == old(state)@,
        },
        old(state)@.consistent() ==> final(state)@.consistent(),
        old(state)@.consistent() && old(state)@.contacts_indexed()
            && old(state)@.is_new_to_indexes(request) ==> final(state)@.contacts_indexed(),
{
    require_admin(state, &caller)?;
    let mut details = new_details();
    put_text(&mut details, "email", request.email.as_str());
    let source: ContactSource = match request.source {
        Some(s) => s,
        None => ContactSource::Signup,
    };
    put_text(&mut details, "source", source.name());
    let contact = state.create_contact(request, caller, now);
    state.record_audit_log(
        caller,
        "create_contact",
        "contact",
        decimal(contact.id).as_str(),
        Some(render(details)),
        now,
    );
    Ok(contact)
}

/// Creates a contact for a user who has signed up, and opens a deal with
/// it. Only the service that reports signups may call.
pub fn create_contact_from_signup(
    state: &mut State,
    caller: Principal,
    now: Timestamp,
    request: CreateContactRequest,
) -> (r: Result<Contact, String>)
    requires
        old(state).wf(),
        old(state)@.next_contact_id < u64::MAX,
        old(state)@.next_deal_id < u64::MAX,
        old(state)@.next_audit_log_id < u64::MAX - 1,
    ensures
        final(state).wf(),
        r is Ok <==> old(state)@.authorized_canisters.contains_key(signup_role())
            && old(state)@.authorized_canisters[signup_role()] == caller,
        match r {
            Ok(c) => {
                let with_contact = old(state)@.with_contact(c);
                let first = with_contact.with_audit_entry(
                    final(state)@.audit_log[final(state)@.audit_log.len() - 2],
                );
                let deal_id = old(state)@.next_deal_id;
                &&& c == old(state)@.new_contact(request, caller, now)
                &&& final(state)@.audit_log.len() >= 2
                &&& audited(
                    with_contact,
                    first,
                    now,
                    caller,
                    "create_contact_from_signup"@,
                    "contact"@,
                    decimal_text(c.id as nat),
                    signup_contact_details(request),
                )
                &&& final(state)@.deals.contains_key(deal_id)
                &&& is_signup_deal(final(state)@.deals[deal_id], deal_id, c.id, caller, now)
                &&& audited(
                    first.with_deal(final(state)@.deals[deal_id]),
                    final(state)@,
                    now,
                    caller,
                    "create_deal_from_signup"@,
                    "deal"@,
                    decimal_text(deal_id as nat),
                    signup_deal_details(c.id),
                )
            },
            Err(e) => e@ == canister_required(signup_role()) && final(state)@ == old(state)@,
        },
        old(state)@.consistent() ==> final(state)@.consistent(),
        old(state)@.consistent() && old(state)@.contacts_indexed()
            && old(state)@.is_new_to_indexes(request) ==> final(state)@.contacts_indexed(),
{
    require_authorized_canister(state, "user-service", &caller)?;
    let mut details = new_details();
    put_text(&mut details, "source", "user_signup");
    put_optional_text(&mut details, "user_id", &request.user_id);
    let contact = state.create_contact(request, caller, now);
    state.record_audit_log(
        caller,
        "create_contact_from_signup",
        "contact",
        decimal(contact.id).as_str(),
        Some(render(details)),
        now,
    );
    let ghost first = state@;
    let deal_request = CreateDealRequest {
        contact_id: contact.id,
        name: join("New signup: Contact #", decimal(contact.id).as_str()),
        value: None,
        notes: Some("Auto-created from user signup".to_string()),
        expected_close_date: None,
    };
    match state.create_deal(deal_request, caller, now) {
        Ok(deal) => {
            let mut deal_details = new_details();
            put_number(&mut deal_details, "contact_id", contact.id);
            put_text(&mut deal_details, "source", "auto_signup");
            state.record_audit_log(
                caller,
                "create_deal_from_signup",
                "deal",
                decimal(deal.id).as_str(),
                Some(render(deal_details)),
                now,
            );
            proof {
                let log = state@.audit_log;
                let earlier = first.audit_log;
                assert(earlier.len() > 0);
                assert(log[log.len() - 2] == earlier.last()) by {
                    let grown = earlier.push(log.last());
                    assert(grown[grown.len() - 2] == earlier.last());
                }
            }
        },
        Err(_e) => {},
    }
    Ok(contact)
}

/// The contact with the number `id`. Only an admin may ask.
pub fn get_contact(state: &State, caller: &Principal, id: ContactId) -> (r: Result<
    Option<Contact>,
    String,
>)
    ensures
        r is Ok <==> state@.is_admin(*caller),
        r is Ok ==> r->Ok_0 == state@.contact(id),
        r is Err ==> refused(r, admin_required()),
{
    require_admin(state, caller)?;
    match state.get_contact(id) {
        Some(c) => Ok(Some(c.clone())),
        None => Ok(None),
    }
}

/// The contact with the email `email`, letter case aside. Only an admin may ask.
pub fn get_contact_by_email(state: &State, caller: &Principal, email: String) -> (r: Result<
    Option<Contact>,
    String,
>)
    requires
        state.wf(),
    ensures
        r is Ok <==> state@.is_admin(*caller),
        r is Ok ==> r->Ok_0 == state@.contact_by_email(email@),
        r is Err ==> refused(r, admin_required()),
{
    require_admin(state, caller)?;
    match state.get_contact_by_email(email.as_str()) {
        Some(c) => Ok(Some(c.clone())),
        None => Ok(None),
    }
}

/// The pagination of a listing: the first 50 where none is asked for.
pub open spec fn pagination_asked(pagination: Option<PaginationParams>) -> PaginationParams {
    match pagination {
        Some(p) => p,
        None => PaginationParams { offset: Some(0), limit: Some(50) },
    }
}

/// One page of the contacts that the caller may see. Only an admin may ask.
pub fn get_contacts(
    state: &State,
    caller: &Principal,
    filter: Option<ContactFilter>,
    pagination: Option<PaginationParams>,
) -> (r: Result<PaginatedResponse<Contact>, String>)
    requires
        state.wf(),
    ensures
        r is Ok <==> state@.is_admin(*caller),
        r is Err ==> refused(r, admin_required()),
        r matches Ok(p) ==> {
            &&& p.items@ == page(
                state@.contacts_for(*caller, filter),
                pagination_asked(pagination).offset_or_default(),
                pagination_asked(pagination).limit_or_default(),
            )
            &&& p.total == state@.contacts_for(*caller, filter).len()
            &&& p.offset == pagination_asked(pagination).offset_or_default()
            &&& p.limit == pagination_asked(pagination).limit_or_default()
            &&& !state@.has_permission(*caller, AdminPermission::ViewAllContacts) ==> forall|i: int|
                0 <= i < p.items@.len() ==> (#[trigger] p.items@[i]).owner_id == Some(*caller)
        },
{
    require_admin(state, caller)?;
    let asked: PaginationParams = match pagination {
        Some(p) => p,
        None => PaginationParams { offset: Some(0), limit: Some(50) },
    };
    Ok(state.get_contacts(filter, asked, caller))
}

/// What a change of a contact is refused with, if it is.
pub open spec fn update_contact_refusal(v: StateView, caller: Principal, id: ContactId) -> Option<
    Seq<char>,
> {
    if !v.is_admin(caller) {
        Some(admin_required())
    } else if !v.contacts.contains_key(id) {
        Some(contact_missing())
    } else if !may_act(
        v,
        caller,
        AdminPermission::EditAllContacts,
        AdminPermission::EditOwnContacts,
        v.contacts[id].owner_id,
    ) {
        Some(contact_edit_refused())
    } else {
        None
    }
}

/// Changes the fields of a contact that are given. An admin may change its
/// own contacts with the right to, and every contact with the right to
/// change all.
pub fn update_contact(
    state: &mut State,
    caller: Principal,
    now: Timestamp,
    request: UpdateContactRequest,
) -> (r: Result<Contact, String>)
    requires
        old(state).wf(),
        old(state)@.next_audit_log_id < u64::MAX,
    ensures
        final(state).wf(),
        match update_contact_refusal(old(state)@, caller, request.id) {
            Some(message) => refused(r, message) && final(state)@ == old(state)@,
            None => r is Ok && r->Ok_0 == updated_contact(
                old(state)@.contacts[request.id],
                request.name,
                request.company,
                request.job_title,
                request.interest_area,
                request.notes,
                request.status,
                now,
            ) && audited(
                StateView {
                    contacts: old(state)@.contacts.insert(request.id, r->Ok_0),
                    ..old(state)@
                },
                final(state)@,
                now,
                caller,
                "update_contact"@,
                "contact"@,
                decimal_text(request.id as nat),
                changed_contact_details(old(state)@.contacts[request.id]),
            ),
        },
        old(state)@.consistent() ==> final(state)@.consistent(),
        old(state)@.consistent() && old(state)@.contacts_indexed()
            ==> final(state)@.contacts_indexed(),
{
    require_admin(state, &caller)?;
    let mut details = new_details();
    match state.get_contact(request.id) {
        Some(contact) => {
            if !allowed(
                state,
                &caller,
                AdminPermission::EditAllContacts,
                AdminPermission::EditOwnContacts,
                contact.owner_id,
            ) {
                return Err("Unauthorized: Cannot edit this contact".to_string());
            }
            put_optional_text(&mut details, "name", &contact.name);
            put_optional_text(&mut details, "company", &contact.company);
            put_text(&mut details, "status", contact.status.name());
        },
        None => {
            return Err("Contact not found".to_string());
        },
    }
    let id: ContactId = request.id;
    match state.update_contact(
        id,
        request.name,
        request.company,
        request.job_title,
        request.interest_area,
        request.notes,
        request.status,
        now,
    ) {
        Some(updated) => {
            state.record_audit_log(
                caller,
                "update_contact",
                "contact",
                decimal(id).as_str(),
                Some(render(details)),
                now,
            );
            Ok(updated)
        },
        None => Err("Failed to update contact".to_string()),
    }
}

/// What the deletion of a contact is refused with, if it is.
pub open spec fn delete_contact_refusal(v: StateView, caller: Principal, id: ContactId) -> Option<
    Seq<char>,
> {
    if !v.is_admin(caller) {
        Some(admin_required())
    } else if !v.contacts.contains_key(id) {
        Some(contact_missing())
    } else if !may_act(
        v,
        caller,
        AdminPermission::DeleteAllContacts,
        AdminPermission::DeleteOwnContacts,
        v.contacts[id].owner_id,
    ) {
        Some(contact_delete_refused())
    } else {
        None
    }
}

/// Deletes a contact and its deals. An admin may delete its own contacts
/// with the right to, and every contact with the right to delete all. The
/// deletion is written to the audit log before it is done.
pub fn delete_contact(state: &mut State, caller: Principal, now: Timestamp, id: ContactId) -> (r:
    Result<Contact, String>)
    requires
        old(state).wf(),
        old(state)@.next_audit_log_id < u64::MAX,
    ensures
        final(state).wf(),
        match delete_contact_refusal(old(state)@, caller, id) {
            Some(message) => refused(r, message) && final(state)@ == old(state)@,
            None => {
                let logged = old(state)@.with_audit_entry(final(state)@.audit_log.last());
                &&& r is Ok
                &&& r->Ok_0 == old(state)@.contacts[id]
                &&& audited(
                    old(state)@,
                    logged,
                    now,
                    caller,
                    "delete_contact"@,
                    "contact"@,
                    decimal_text(id as nat),
                    deleted_contact_details(old(state)@.contacts[id]),
                )
                &&& final(state)@ == logged.without_contact(id)
            },
        },
        old(state)@.consistent() ==> final(state)@.consistent(),
        old(state)@.consistent() && old(state)@.contacts_indexed()
            ==> final(state)@.contacts_indexed(),
        delete_contact_refusal(old(state)@, caller, id) is None && old(state)@.deals_listed()
            ==> forall|d: u64| #[trigger]
            final(state)@.deals.contains_key(d) ==> final(state)@.deals[d].contact_id != id,
        delete_contact_refusal(old(state)@, caller, id) is None && old(state)@.deal_lists_sound()
            ==> forall|d: u64|
            old(state)@.deals.contains_key(d) && old(state)@.deals[d].contact_id != id
                ==> #[trigger] final(state)@.deals.contains_key(d) && final(state)@.deals[d]
                == old(state)@.deals[d],
{
    require_admin(state, &caller)?;
    let mut details = new_details();
    match state.get_contact(id) {
        Some(contact) => {
            if !allowed(
                state,
                &caller,
                AdminPermission::DeleteAllContacts,
                AdminPermission::DeleteOwnContacts,
                contact.owner_id,
            ) {
                return Err("Unauthorized: Cannot delete this contact".to_string());
            }
            put_text(&mut details, "email", contact.email.as_str());
            put_optional_text(&mut details, "name", &contact.name);
        },
        None => {
            return Err("Contact not found".to_string());
        },
    }
    state.record_audit_log(
        caller,
        "delete_contact",
        "contact",
        decimal(id).as_str(),
        Some(render(details)),
        now,
    );
    match state.delete_contact(id) {
        Some(deleted) => Ok(deleted),
        None => Err("Failed to delete contact".to_string()),
    }
}

} // verus!
