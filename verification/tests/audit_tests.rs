use dao_admin::api;
use dao_admin::api::ControllerCheck;
use dao_admin::types::{
    AdminPermission, AuditLogEntry, ContactStatus, CreateContactRequest, CreateDealRequest,
    DealStage, SetFeatureFlagRequest, UpdateContactRequest, UpdateDealRequest,
};
use dao_admin::{Principal, State};

fn id(bytes: &[u8]) -> Principal {
    Principal::from_slice(bytes)
}

fn boss() -> Principal {
    id(&[1])
}

fn started() -> State {
    api::init(Some(vec![boss()]), id(&[7]))
}

fn contact(email: &str, name: Option<&str>) -> CreateContactRequest {
    CreateContactRequest {
        user_id: None,
        email: email.to_string(),
        name: name.map(|n| n.to_string()),
        company: None,
        job_title: None,
        interest_area: None,
        source: None,
        notes: None,
    }
}

fn newest(state: &State) -> AuditLogEntry {
    state.get_audit_log(None, None, None, Some(1)).remove(0)
}

fn field(details: &Option<String>, key: &str) -> serde_json::Value {
    let parsed: serde_json::Value = serde_json::from_str(details.as_ref().unwrap()).unwrap();
    parsed.get(key).unwrap().clone()
}

#[test]
fn start_makes_the_controllers_admins() {
    let s = started();
    assert!(s.is_controller(&boss()));
    assert!(s.is_admin(&boss()));
    assert_eq!(s.admins().clone(), vec![boss()]);
    let alone = api::init(None, id(&[7]));
    assert_eq!(alone.controllers().clone(), vec![id(&[7])]);
    assert_eq!(alone.admins().clone(), vec![id(&[7])]);
}

#[test]
fn creating_a_contact_is_audited() {
    let mut s = started();
    let created =
        api::contacts::create_contact(&mut s, boss(), 500, contact("New@Mail.io", Some("N"))).unwrap();
    assert_eq!(created.id, 1);
    let entry = newest(&s);
    assert_eq!(entry.id, 1);
    assert_eq!(entry.timestamp, 500);
    assert_eq!(entry.actor, boss());
    assert_eq!(entry.action, "create_contact");
    assert_eq!(entry.target_type, "contact");
    assert_eq!(entry.target_id, "1");
    assert_eq!(entry.details, Some("{\"email\":\"New@Mail.io\",\"source\":\"Signup\"}".to_string()));
}

#[test]
fn refused_calls_leave_no_trace() {
    let mut s = started();
    let stranger = id(&[9]);
    let refused = api::contacts::create_contact(&mut s, stranger, 1, contact("a@b.co", None));
    assert_eq!(refused.unwrap_err(), "Unauthorized: Admin access required");
    assert_eq!(s.contact_count(), 0);
    assert_eq!(s.get_audit_log(None, None, None, None).len(), 0);
    let refused = api::deals::create_deal(
        &mut s,
        boss(),
        2,
        CreateDealRequest { contact_id: 5, name: "d".to_string(), value: None, notes: None, expected_close_date: None },
    );
    assert_eq!(refused.unwrap_err(), "Contact not found");
    assert_eq!(s.get_audit_log(None, None, None, None).len(), 0);
}

#[test]
fn signup_creates_a_contact_and_a_deal_and_audits_both() {
    let mut s = started();
    let service = id(&[5, 5]);
    api::access::register_authorized_canister(&mut s, &boss(), "user-service".to_string(), service).unwrap();
    let mut request = contact("s@u.io", None);
    request.user_id = Some("u-9".to_string());
    let created = api::contacts::create_contact_from_signup(&mut s, service, 70, request).unwrap();
    assert_eq!(created.owner_id, Some(service));
    let deal = s.get_deal(1).unwrap();
    assert_eq!(deal.name, "New signup: Contact #1");
    assert_eq!(deal.notes, Some("Auto-created from user signup".to_string()));
    assert_eq!(deal.contact_id, created.id);
    assert_eq!(deal.value, None);
    assert_eq!(deal.stage, DealStage::Lead);
    assert_eq!(deal.owner_id, Some(service));
    let log = s.get_audit_log(None, None, None, None);
    assert_eq!(log.len(), 2);
    assert_eq!(log[0].action, "create_deal_from_signup");
    assert_eq!(log[0].target_type, "deal");
    assert_eq!(log[0].target_id, "1");
    assert_eq!(log[0].details, Some("{\"contact_id\":1,\"source\":\"auto_signup\"}".to_string()));
    assert_eq!(log[1].action, "create_contact_from_signup");
    assert_eq!(log[1].details, Some("{\"source\":\"user_signup\",\"user_id\":\"u-9\"}".to_string()));
    let again = api::contacts::create_contact_from_signup(&mut s, service, 71, contact("t@u.io", None)).unwrap();
    assert_eq!(again.id, 2);
    assert_eq!(newest(&s).details, Some("{\"contact_id\":2,\"source\":\"auto_signup\"}".to_string()));
    let entry = &s.get_audit_log(Some("create_contact_from_signup"), None, None, Some(1))[0];
    assert_eq!(entry.details, Some("{\"source\":\"user_signup\",\"user_id\":null}".to_string()));
    let refused = api::contacts::create_contact_from_signup(&mut s, boss(), 72, contact("v@u.io", None));
    assert_eq!(refused.unwrap_err(), "Unauthorized: Expected user-service canister");
}

#[test]
fn only_owners_and_holders_of_the_wider_right_change_contacts() {
    let mut s = started();
    let owner = id(&[2]);
    let peer = id(&[3]);
    let editor = id(&[4]);
    for admin in [owner, peer, editor] {
        api::access::add_admin(&mut s, &boss(), admin).unwrap();
    }
    api::access::grant_default_permissions_to_all_admins(&mut s, &boss()).unwrap();
    api::access::grant_permission(&mut s, &boss(), editor, AdminPermission::EditAllContacts).unwrap();
    let c = api::contacts::create_contact(&mut s, owner, 1, contact("o@x.io", Some("Old"))).unwrap();
    let update = |name: &str| UpdateContactRequest {
        id: c.id,
        name: Some(name.to_string()),
        company: None,
        job_title: None,
        interest_area: None,
        notes: None,
        status: Some(ContactStatus::Inactive),
    };
    let refused = api::contacts::update_contact(&mut s, peer, 2, update("peer"));
    assert_eq!(refused.unwrap_err(), "Unauthorized: Cannot edit this contact");
    assert_eq!(s.get_contact(c.id).unwrap().name, Some("Old".to_string()));
    let mine = api::contacts::update_contact(&mut s, owner, 3, update("mine")).unwrap();
    assert_eq!(mine.name, Some("mine".to_string()));
    assert_eq!(mine.status, ContactStatus::Inactive);
    assert_eq!(mine.updated_at, 3);
    let entry = newest(&s);
    assert_eq!(entry.action, "update_contact");
    assert_eq!(entry.target_id, "1");
    assert_eq!(entry.details, Some("{\"company\":null,\"name\":\"Old\",\"status\":\"Active\"}".to_string()));
    let theirs = api::contacts::update_contact(&mut s, editor, 4, update("theirs")).unwrap();
    assert_eq!(theirs.name, Some("theirs".to_string()));
    assert_eq!(theirs.owner_id, Some(owner));
    let mut missing = update("x");
    missing.id = 99;
    assert_eq!(api::contacts::update_contact(&mut s, owner, 5, missing).unwrap_err(), "Contact not found");
    let stranger = api::contacts::update_contact(&mut s, id(&[8]), 6, update("x"));
    assert_eq!(stranger.unwrap_err(), "Unauthorized: Admin access required");
    let refused = api::contacts::delete_contact(&mut s, owner, 7, c.id);
    assert_eq!(refused.unwrap_err(), "Unauthorized: Cannot delete this contact");
    api::access::grant_permission(&mut s, &boss(), owner, AdminPermission::DeleteOwnContacts).unwrap();
    api::access::grant_permission(&mut s, &boss(), peer, AdminPermission::DeleteOwnContacts).unwrap();
    let refused = api::contacts::delete_contact(&mut s, peer, 8, c.id);
    assert_eq!(refused.unwrap_err(), "Unauthorized: Cannot delete this contact");
    let before = s.get_audit_log(None, None, None, None).len();
    let deleted = api::contacts::delete_contact(&mut s, owner, 9, c.id).unwrap();
    assert_eq!(deleted.name, Some("theirs".to_string()));
    assert_eq!(s.get_audit_log(None, None, None, None).len(), before + 1);
    let entry = newest(&s);
    assert_eq!(entry.action, "delete_contact");
    assert_eq!(entry.details, Some("{\"email\":\"o@x.io\",\"name\":\"theirs\"}".to_string()));
    assert_eq!(api::contacts::delete_contact(&mut s, owner, 10, c.id).unwrap_err(), "Contact not found");
}

#[test]
fn only_owners_and_holders_of_the_wider_right_change_deals() {
    let mut s = started();
    let owner = id(&[2]);
    let peer = id(&[3]);
    for admin in [owner, peer] {
        api::access::add_admin(&mut s, &boss(), admin).unwrap();
        s.grant_default_permissions(admin);
    }
    let c = api::contacts::create_contact(&mut s, owner, 1, contact("o@x.io", None)).unwrap();
    let request = CreateDealRequest {
        contact_id: c.id,
        name: "Deal \"one\"".to_string(),
        value: Some(12),
        notes: None,
        expected_close_date: None,
    };
    let d = api::deals::create_deal(&mut s, owner, 2, request).unwrap();
    let entry = newest(&s);
    assert_eq!(entry.action, "create_deal");
    assert_eq!(
        entry.details,
        Some("{\"contact_id\":1,\"name\":\"Deal \\\"one\\\"\",\"value\":12}".to_string())
    );
    assert_eq!(field(&entry.details, "name"), serde_json::Value::from("Deal \"one\""));
    let refused = api::deals::update_deal_stage(&mut s, peer, 3, d.id, DealStage::Proposal);
    assert_eq!(refused.unwrap_err(), "Unauthorized: Cannot update this deal");
    let moved = api::deals::update_deal_stage(&mut s, owner, 4, d.id, DealStage::Proposal).unwrap();
    assert_eq!(moved.stage, DealStage::Proposal);
    assert_eq!(newest(&s).details, Some("{\"new_stage\":\"Proposal\",\"old_stage\":\"Lead\"}".to_string()));
    let update = UpdateDealRequest {
        id: d.id,
        name: Some("renamed".to_string()),
        value: None,
        stage: None,
        notes: None,
        expected_close_date: Some(5),
    };
    let refused = api::deals::update_deal(&mut s, peer, 5, update.clone());
    assert_eq!(refused.unwrap_err(), "Unauthorized: Cannot edit this deal");
    let changed = api::deals::update_deal(&mut s, boss(), 6, update.clone()).unwrap();
    assert_eq!(changed.name, "renamed");
    assert_eq!(changed.value, Some(12));
    assert_eq!(changed.expected_close_date, Some(5));
    assert_eq!(
        newest(&s).details,
        Some("{\"name\":\"Deal \\\"one\\\"\",\"stage\":\"Proposal\",\"value\":12}".to_string())
    );
    let mut missing = update.clone();
    missing.id = 99;
    assert_eq!(api::deals::update_deal(&mut s, owner, 7, missing).unwrap_err(), "Deal not found");
    assert_eq!(
        api::deals::update_deal_stage(&mut s, owner, 7, 99, DealStage::Lead).unwrap_err(),
        "Deal not found"
    );
    assert_eq!(
        api::deals::delete_deal(&mut s, owner, 8, d.id).unwrap_err(),
        "Unauthorized: Cannot delete this deal"
    );
    api::access::grant_permission(&mut s, &boss(), peer, AdminPermission::DeleteAllDeals).unwrap();
    let deleted = api::deals::delete_deal(&mut s, peer, 9, d.id).unwrap();
    assert_eq!(deleted.name, "renamed");
    assert_eq!(newest(&s).details, Some("{\"contact_id\":1,\"name\":\"renamed\",\"value\":12}".to_string()));
    assert_eq!(api::deals::delete_deal(&mut s, peer, 10, d.id).unwrap_err(), "Deal not found");
    assert_eq!(
        api::deals::delete_deal(&mut s, id(&[8]), 10, d.id).unwrap_err(),
        "Unauthorized: Admin access required"
    );
}

#[test]
fn setting_a_flag_needs_the_right_and_is_audited() {
    let mut s = started();
    let admin = id(&[2]);
    api::access::add_admin(&mut s, &boss(), admin).unwrap();
    let request = |enabled: bool, percentage: Option<u8>| SetFeatureFlagRequest {
        key: "beta".to_string(),
        enabled,
        description: None,
        percentage,
        allowed_principals: None,
    };
    let refused = api::records::set_feature_flag(&mut s, admin, 1, request(true, None));
    assert_eq!(refused.unwrap_err(), "Unauthorized: ManageFeatureFlags permission required");
    let refused = api::records::set_feature_flag(&mut s, id(&[8]), 1, request(true, None));
    assert_eq!(refused.unwrap_err(), "Unauthorized: Admin access required");
    assert!(api::records::get_feature_flag(&s, "beta".to_string()).is_none());
    api::access::grant_permission(&mut s, &boss(), admin, AdminPermission::ManageFeatureFlags).unwrap();
    api::records::set_feature_flag(&mut s, admin, 2, request(true, Some(50))).unwrap();
    let entry = newest(&s);
    assert_eq!(entry.action, "set_feature_flag");
    assert_eq!(entry.target_type, "feature_flag");
    assert_eq!(entry.target_id, "beta");
    assert_eq!(
        entry.details,
        Some("{\"new_enabled\":true,\"new_percentage\":50,\"old_value\":\"null\"}".to_string())
    );
    api::records::set_feature_flag(&mut s, boss(), 3, request(false, None)).unwrap();
    let entry = newest(&s);
    assert_eq!(
        entry.details,
        Some(
            "{\"new_enabled\":false,\"new_percentage\":null,\"old_value\":\"{\\\"enabled\\\":true,\\\"percentage\\\":50}\"}"
                .to_string()
        )
    );
    assert_eq!(
        field(&entry.details, "old_value"),
        serde_json::Value::from("{\"enabled\":true,\"percentage\":50}")
    );
    assert!(!api::records::is_feature_enabled(&s, &admin, "beta".to_string()));
}

#[test]
fn audit_log_needs_the_right_to_see_it() {
    let mut s = started();
    let admin = id(&[2]);
    api::access::add_admin(&mut s, &boss(), admin).unwrap();
    api::contacts::create_contact(&mut s, boss(), 1, contact("a@x.io", None)).unwrap();
    let refused = api::access::get_audit_log(&s, &admin, None, None, None, None);
    assert_eq!(refused.unwrap_err(), "Unauthorized: ViewAuditLogs permission required");
    let refused = api::access::get_audit_log(&s, &id(&[8]), None, None, None, None);
    assert_eq!(refused.unwrap_err(), "Unauthorized: Admin access required");
    api::access::grant_permission(&mut s, &boss(), admin, AdminPermission::ViewAuditLogs).unwrap();
    let seen = api::access::get_audit_log(
        &s,
        &admin,
        Some("create_contact".to_string()),
        Some("contact".to_string()),
        Some(boss()),
        Some(5),
    )
    .unwrap();
    assert_eq!(seen.len(), 1);
    let none = api::access::get_audit_log(&s, &boss(), Some("other".to_string()), None, None, None).unwrap();
    assert_eq!(none.len(), 0);
}

#[test]
fn controllers_are_confirmed_by_the_platform() {
    let mut s = started();
    let newcomer = id(&[6]);
    assert_eq!(api::check_controller(&s, &boss()), ControllerCheck::Known);
    assert_eq!(api::check_controller(&s, &newcomer), ControllerCheck::AskPlatform);
    let refused = api::confirm_controller(&mut s, &newcomer, vec![boss()]);
    assert_eq!(refused.unwrap_err(), "Unauthorized: Only controllers can perform this action");
    assert!(s.is_controller(&boss()));
    assert_eq!(
        api::access::add_admin(&mut s, &newcomer, newcomer).unwrap_err(),
        "Unauthorized: Only controllers can perform this action"
    );
    assert!(api::confirm_controller(&mut s, &newcomer, vec![id(&[5]), newcomer]).is_ok());
    assert_eq!(s.controllers().clone(), vec![id(&[5]), newcomer]);
    assert!(!s.is_controller(&boss()));
    assert!(s.is_admin(&boss()));
    assert_eq!(api::check_controller(&s, &newcomer), ControllerCheck::Known);
    assert!(api::access::add_admin(&mut s, &newcomer, newcomer).is_ok());
    for refused in [
        api::access::remove_admin(&mut s, &boss(), newcomer),
        api::access::register_authorized_canister(&mut s, &boss(), "r".to_string(), newcomer),
        api::access::unregister_authorized_canister(&mut s, &boss(), "r".to_string()),
        api::access::grant_permission(&mut s, &boss(), newcomer, AdminPermission::ViewAuditLogs),
        api::access::revoke_permission(&mut s, &boss(), newcomer, AdminPermission::ViewAuditLogs),
    ] {
        assert_eq!(refused.unwrap_err(), "Unauthorized: Only controllers can perform this action");
    }
    assert!(api::access::grant_default_permissions_to_all_admins(&mut s, &boss()).is_err());
}

#[test]
fn permissions_are_shown_to_their_holder_and_to_controllers() {
    let mut s = started();
    let admin = id(&[2]);
    let other = id(&[3]);
    api::access::add_admin(&mut s, &boss(), admin).unwrap();
    api::access::add_admin(&mut s, &boss(), other).unwrap();
    assert_eq!(api::access::grant_default_permissions_to_all_admins(&mut s, &boss()), Ok(3));
    let own = api::access::get_permissions(&s, &admin, None).unwrap();
    assert_eq!(
        own,
        vec![
            AdminPermission::ViewOwnContacts,
            AdminPermission::EditOwnContacts,
            AdminPermission::ViewOwnDeals,
            AdminPermission::EditOwnDeals,
        ]
    );
    assert_eq!(api::access::get_permissions(&s, &admin, Some(admin)).unwrap(), own);
    assert_eq!(api::access::get_permissions(&s, &boss(), Some(admin)).unwrap(), own);
    assert_eq!(api::access::get_permissions(&s, &boss(), None).unwrap(), vec![]);
    assert_eq!(
        api::access::get_permissions(&s, &admin, Some(other)).unwrap_err(),
        "Unauthorized: Only controllers can view other admins' permissions"
    );
    assert_eq!(
        api::access::get_permissions(&s, &boss(), Some(id(&[9]))).unwrap_err(),
        "Target is not an admin"
    );
    assert_eq!(api::access::get_permissions(&s, &id(&[9]), None).unwrap_err(), "Target is not an admin");
    api::access::revoke_permission(&mut s, &boss(), admin, AdminPermission::ViewOwnDeals).unwrap();
    assert_eq!(api::access::get_permissions(&s, &admin, None).unwrap().len(), 3);
}

#[test]
fn activity_is_limited_and_sweeps_the_limiter() {
    let mut s = started();
    let service = id(&[5]);
    let quiet = id(&[6]);
    api::access::register_authorized_canister(&mut s, &boss(), "frontend".to_string(), service).unwrap();
    api::access::register_authorized_canister(&mut s, &boss(), "other".to_string(), quiet).unwrap();
    let log = |s: &mut State, who: Principal, at: u64| {
        api::records::log_activity(s, who, at, "u".to_string(), "a".to_string(), None)
    };
    assert_eq!(
        log(&mut s, quiet, 1).unwrap_err(),
        "Unauthorized: Requires admin or authorized canister access"
    );
    assert_eq!(s.activity_count(), 0);
    for i in 0..100u64 {
        assert!(log(&mut s, service, 10 + i).is_ok());
    }
    assert_eq!(s.activity_count(), 100);
    assert_eq!(
        log(&mut s, service, 200).unwrap_err(),
        "Rate limit exceeded: 100 calls per minute allowed, try again later"
    );
    assert_eq!(s.activity_count(), 100);
    for i in 0..99u64 {
        assert!(log(&mut s, boss(), 300 + i).is_ok());
    }
    assert_eq!(s.activity_count(), 199);
    let much_later = 300 + 61_000_000_000;
    assert!(log(&mut s, boss(), much_later).is_ok());
    assert_eq!(s.activity_count(), 200);
    for _ in 0..100 {
        assert!(s.check_rate_limit(&service, much_later).is_ok());
    }
    assert!(s.check_rate_limit(&service, much_later).is_err());
}

#[test]
fn upgrade_keeps_the_store() {
    let mut s = started();
    let c = api::contacts::create_contact(&mut s, boss(), 1, contact("Keep@Me.io", None)).unwrap();
    let saved = api::pre_upgrade(&s);
    assert_eq!(saved.audit_log.len(), 1);
    let resumed = api::post_upgrade(Some(saved));
    assert_eq!(api::contacts::get_contact_by_email(&resumed, &boss(), "keep@me.IO".to_string()).unwrap().unwrap().id, c.id);
    assert_eq!(newest(&resumed).action, "create_contact");
    assert!(resumed.is_controller(&boss()));
    let fresh = api::post_upgrade(None);
    assert_eq!(fresh.contact_count(), 0);
    assert_eq!(fresh.admins().len(), 0);
    assert!(fresh.has_room());
}

#[test]
fn records_and_stats_need_an_admin() {
    let mut s = started();
    let stranger = id(&[8]);
    let denied = "Unauthorized: Admin access required";
    assert_eq!(api::access::list_authorized_canisters(&s, &stranger).unwrap_err(), denied);
    assert_eq!(api::contacts::get_contacts(&s, &stranger, None, None).unwrap_err(), denied);
    assert_eq!(api::deals::get_deals(&s, &stranger, None, None).unwrap_err(), denied);
    assert_eq!(api::records::get_transactions(&s, &stranger, None, None).unwrap_err(), denied);
    assert_eq!(api::records::get_financial_summary(&s, &stranger, 0, 1).unwrap_err(), denied);
    assert_eq!(api::records::list_feature_flags(&s, &stranger).unwrap_err(), denied);
    assert_eq!(api::records::get_admin_stats(&s, &stranger).unwrap_err(), denied);
    let mut empty = dao_admin::types::CreateTransactionRequest {
        transaction_type: dao_admin::types::TransactionType::Income,
        category: dao_admin::types::TransactionCategory::Other,
        amount: 1,
        currency: None,
        description: "d".to_string(),
        reference: None,
        date: None,
    };
    assert_eq!(api::records::create_transaction(&mut s, &stranger, 1, empty.clone()).unwrap_err(), denied);
    empty.amount = 24;
    empty.category = dao_admin::types::TransactionCategory::Subscription;
    let t = api::records::create_transaction(&mut s, &boss(), 2, empty).unwrap();
    assert_eq!((t.id, t.date), (1, 2));
    assert!(s.financial_summary_fits(0, 10));
    let summary = api::records::get_financial_summary(&s, &boss(), 0, 10).unwrap();
    assert_eq!((summary.total_income, summary.mrr, summary.net), (24, 2, 24));
    let stats = api::records::get_admin_stats(&s, &boss()).unwrap();
    assert_eq!((stats.total_contacts, stats.total_transactions, stats.active_feature_flags), (0, 1, 0));
    let page = api::contacts::get_contacts(&s, &boss(), None, None).unwrap();
    assert_eq!((page.total, page.offset, page.limit), (0, 0, 50));
    dao_admin::State::create_transaction(
        &mut s,
        dao_admin::types::CreateTransactionRequest {
            transaction_type: dao_admin::types::TransactionType::Income,
            category: dao_admin::types::TransactionCategory::Other,
            amount: u64::MAX,
            currency: None,
            description: "d".to_string(),
            reference: None,
            date: Some(5),
        },
        3,
    );
    assert!(!s.financial_summary_fits(0, 10));
    assert_eq!(api::records::get_financial_summary(&s, &stranger, 0, 10).unwrap_err(), denied);
}
