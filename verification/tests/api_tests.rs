use dao_admin::api;
use dao_admin::api::ControllerCheck;
use dao_admin::state::State;
use dao_admin::types::{
    AdminStats, Contact, ContactFilter, ContactSource, ContactStatus, CreateContactRequest,
    CreateDealRequest, CreateTransactionRequest, Deal, DealFilter, DealStage, FeatureFlag,
    FinancialSummary, MetricsSnapshot, PaginatedResponse, PaginationParams, SetFeatureFlagRequest,
    Transaction, TransactionCategory, TransactionFilter, TransactionType,
};
use dao_admin::Principal;

/// The backend as a caller sees it: the store, a clock, and the platform's
/// own list of controllers.
struct Backend {
    state: State,
    now: u64,
    platform_controllers: Vec<Principal>,
}

fn principal(text: &str) -> Principal {
    Principal::from_slice(candid::Principal::from_text(text).unwrap().as_slice())
}

fn setup() -> (Backend, Principal) {
    let controller = principal("aaaaa-aa");
    let state = api::init(Some(vec![controller]), controller);
    (Backend { state, now: 1_620_328_630_000_000_000, platform_controllers: Vec::new() }, controller)
}

fn non_admin_principal() -> Principal {
    principal("2vxsx-fae")
}

impl Backend {
    fn tick(&mut self) -> u64 {
        self.now += 1_000_000;
        assert!(self.state.has_room());
        self.now
    }

    /// One call of the backend, as the platform answers it: the platform
    /// rejects a call that the backend cannot take, and hands the backend's
    /// own answer on otherwise.
    fn update_call<T>(&mut self, call: impl FnOnce(&mut Backend) -> T) -> Result<T, String> {
        if !self.state.has_room() {
            return Err("the backend cannot number another record".to_string());
        }
        Ok(call(self))
    }

    fn advance_time(&mut self, seconds: u64) {
        self.now += seconds * 1_000_000_000;
    }

    fn pass_controller(&mut self, caller: &Principal) -> Result<(), String> {
        match api::check_controller(&self.state, caller) {
            ControllerCheck::Known => Ok(()),
            ControllerCheck::AskPlatform => {
                api::confirm_controller(&mut self.state, caller, self.platform_controllers.clone())
            }
        }
    }

    fn add_admin(&mut self, caller: Principal, who: Principal) -> Result<(), String> {
        self.pass_controller(&caller)?;
        api::access::add_admin(&mut self.state, &caller, who)
    }

    fn remove_admin(&mut self, caller: Principal, who: Principal) -> Result<(), String> {
        self.pass_controller(&caller)?;
        api::access::remove_admin(&mut self.state, &caller, who)
    }

    fn get_admins(&self, caller: Principal) -> Result<Vec<Principal>, String> {
        api::access::get_admins(&self.state, &caller)
    }

    fn register_authorized_canister(
        &mut self,
        caller: Principal,
        role: &str,
        id: Principal,
    ) -> Result<(), String> {
        self.pass_controller(&caller)?;
        api::access::register_authorized_canister(&mut self.state, &caller, role.to_string(), id)
    }

    fn list_authorized_canisters(&self, caller: Principal) -> Result<Vec<(String, Principal)>, String> {
        api::access::list_authorized_canisters(&self.state, &caller)
    }

    fn create_contact(
        &mut self,
        caller: Principal,
        request: CreateContactRequest,
    ) -> Result<Contact, String> {
        let now = self.tick();
        api::contacts::create_contact(&mut self.state, caller, now, request)
    }

    fn create_contact_from_signup(
        &mut self,
        caller: Principal,
        request: CreateContactRequest,
    ) -> Result<Contact, String> {
        let now = self.tick();
        api::contacts::create_contact_from_signup(&mut self.state, caller, now, request)
    }

    fn get_contact(&self, caller: Principal, id: u64) -> Result<Option<Contact>, String> {
        api::contacts::get_contact(&self.state, &caller, id)
    }

    fn get_contact_by_email(&self, caller: Principal, email: &str) -> Result<Option<Contact>, String> {
        api::contacts::get_contact_by_email(&self.state, &caller, email.to_string())
    }

    fn get_contacts(
        &self,
        caller: Principal,
        filter: Option<ContactFilter>,
        pagination: Option<PaginationParams>,
    ) -> Result<PaginatedResponse<Contact>, String> {
        api::contacts::get_contacts(&self.state, &caller, filter, pagination)
    }

    fn create_deal(&mut self, caller: Principal, request: CreateDealRequest) -> Result<Deal, String> {
        let now = self.tick();
        api::deals::create_deal(&mut self.state, caller, now, request)
    }

    fn get_deal(&self, caller: Principal, id: u64) -> Result<Option<Deal>, String> {
        api::deals::get_deal(&self.state, &caller, id)
    }

    fn update_deal_stage(&mut self, caller: Principal, id: u64, stage: DealStage) -> Result<Deal, String> {
        let now = self.tick();
        api::deals::update_deal_stage(&mut self.state, caller, now, id, stage)
    }

    fn get_deals(
        &self,
        caller: Principal,
        filter: Option<DealFilter>,
        pagination: Option<PaginationParams>,
    ) -> Result<PaginatedResponse<Deal>, String> {
        api::deals::get_deals(&self.state, &caller, filter, pagination)
    }

    fn create_transaction(
        &mut self,
        caller: Principal,
        request: CreateTransactionRequest,
    ) -> Result<Transaction, String> {
        let now = self.tick();
        api::records::create_transaction(&mut self.state, &caller, now, request)
    }

    fn get_transactions(
        &self,
        caller: Principal,
        filter: Option<TransactionFilter>,
        pagination: Option<PaginationParams>,
    ) -> Result<PaginatedResponse<Transaction>, String> {
        api::records::get_transactions(&self.state, &caller, filter, pagination)
    }

    fn get_financial_summary(&self, caller: Principal, from: u64, to: u64) -> Result<FinancialSummary, String> {
        assert!(!self.state.is_admin(&caller) || self.state.financial_summary_fits(from, to));
        api::records::get_financial_summary(&self.state, &caller, from, to)
    }

    fn set_feature_flag(&mut self, caller: Principal, request: SetFeatureFlagRequest) -> Result<(), String> {
        let now = self.tick();
        api::records::set_feature_flag(&mut self.state, caller, now, request)
    }

    fn get_feature_flag(&self, key: &str) -> Option<FeatureFlag> {
        api::records::get_feature_flag(&self.state, key.to_string())
    }

    fn is_feature_enabled(&self, caller: Principal, key: &str) -> bool {
        api::records::is_feature_enabled(&self.state, &caller, key.to_string())
    }

    fn list_feature_flags(&self, caller: Principal) -> Result<Vec<FeatureFlag>, String> {
        api::records::list_feature_flags(&self.state, &caller)
    }

    fn log_activity(
        &mut self,
        caller: Principal,
        user_id: String,
        action: String,
        metadata: Option<String>,
    ) -> Result<(), String> {
        let now = self.tick();
        api::records::log_activity(&mut self.state, caller, now, user_id, action, metadata)
    }

    fn record_metrics(&mut self, caller: Principal, snapshot: MetricsSnapshot) -> Result<(), String> {
        api::records::record_metrics(&mut self.state, &caller, snapshot)
    }

    fn list_metrics(
        &self,
        caller: Principal,
        from: u64,
        to: u64,
        limit: Option<u64>,
    ) -> Result<Vec<MetricsSnapshot>, String> {
        api::records::list_metrics(&self.state, &caller, from, to, limit)
    }

    fn get_latest_metrics(&self, caller: Principal) -> Result<Option<MetricsSnapshot>, String> {
        api::records::get_latest_metrics(&self.state, &caller)
    }

    fn get_admin_stats(&self, caller: Principal) -> Result<AdminStats, String> {
        api::records::get_admin_stats(&self.state, &caller)
    }
}

fn contact_request(email: &str, name: Option<&str>, source: Option<ContactSource>) -> CreateContactRequest {
    CreateContactRequest {
        user_id: None,
        email: email.to_string(),
        name: name.map(|n| n.to_string()),
        company: None,
        job_title: None,
        interest_area: None,
        source,
        notes: None,
    }
}

#[test]
fn test_health_check() {
    let health: String = api::health();
    assert_eq!(health, "ok");
}

#[test]
fn test_add_admin_by_controller_succeeds() {
    let (mut backend, controller) = setup();
    let new_admin = non_admin_principal();
    let result = backend.add_admin(controller, new_admin);
    assert!(result.is_ok(), "Controller should be able to add admin");
}

#[test]
fn test_add_admin_controller_check_runs() {
    let (mut backend, controller) = setup();
    let new_admin = principal("rrkah-fqaaa-aaaaa-aaaaq-cai");
    let response = backend.update_call(|b| b.add_admin(controller, new_admin));
    assert!(response.is_ok(), "add_admin call should complete");
    let result: Result<(), String> = response.unwrap();
    assert!(result.is_ok(), "Controller should be able to add admin");
}

#[test]
fn test_remove_admin_by_controller_succeeds() {
    let (mut backend, controller) = setup();
    let new_admin = non_admin_principal();
    backend.add_admin(controller, new_admin).unwrap();
    let result = backend.remove_admin(controller, new_admin);
    assert!(result.is_ok(), "Controller should be able to remove admin");
}

#[test]
fn test_remove_admin_controller_check_runs() {
    let (mut backend, controller) = setup();
    let admin_to_add = non_admin_principal();
    backend.add_admin(controller, admin_to_add).unwrap();
    let response = backend.update_call(|b| b.remove_admin(controller, admin_to_add));
    assert!(response.is_ok(), "remove_admin call should complete");
    let result: Result<(), String> = response.unwrap();
    assert!(result.is_ok(), "Controller should be able to remove admin");
}

#[test]
fn test_get_admins_returns_correct_list() {
    let (mut backend, controller) = setup();
    let new_admin = non_admin_principal();
    let admins = backend.get_admins(controller).expect("Admin should be able to get admin list");
    assert!(admins.contains(&controller), "Controller should be admin");
    backend.add_admin(controller, new_admin).unwrap();
    let admins = backend.get_admins(controller).expect("Admin should be able to get admin list");
    assert_eq!(admins.len(), 2, "Should have 2 admins now");
    assert!(admins.contains(&new_admin), "New admin should be in list");
}

#[test]
fn test_admin_only_endpoint_rejects_non_admin() {
    let (mut backend, _) = setup();
    let non_admin = non_admin_principal();
    let request = contact_request("test@example.com", Some("Test User"), None);
    let result = backend.create_contact(non_admin, request);
    assert!(result.is_err(), "Non-admin should not be able to create contact");
}

#[test]
fn test_create_contact_with_all_fields() {
    let (mut backend, controller) = setup();
    let request = CreateContactRequest {
        user_id: Some("user-123".to_string()),
        email: "john@example.com".to_string(),
        name: Some("John Doe".to_string()),
        company: Some("Acme Corp".to_string()),
        job_title: Some("CTO".to_string()),
        interest_area: Some("Enterprise".to_string()),
        source: Some(ContactSource::Marketing),
        notes: Some("High priority lead".to_string()),
    };
    let contact = backend.create_contact(controller, request).expect("Should create contact successfully");
    assert_eq!(contact.email, "john@example.com");
    assert_eq!(contact.name, Some("John Doe".to_string()));
    assert_eq!(contact.company, Some("Acme Corp".to_string()));
    assert_eq!(contact.source, ContactSource::Marketing);
    assert_eq!(contact.status, ContactStatus::Active);
    assert!(contact.id > 0);
}

#[test]
fn test_get_contact_returns_created_contact() {
    let (mut backend, controller) = setup();
    let request = contact_request("jane@example.com", Some("Jane Smith"), None);
    let created = backend.create_contact(controller, request).unwrap();
    let contact_opt =
        backend.get_contact(controller, created.id).expect("Admin should be able to get contact");
    assert!(contact_opt.is_some());
    let contact = contact_opt.unwrap();
    assert_eq!(contact.id, created.id);
    assert_eq!(contact.email, "jane@example.com");
}

#[test]
fn test_get_contact_returns_none_for_nonexistent() {
    let (backend, controller) = setup();
    let contact_opt = backend.get_contact(controller, 99999u64).expect("Admin should be able to query");
    assert!(contact_opt.is_none());
}

#[test]
fn test_get_contact_by_email() {
    let (mut backend, controller) = setup();
    let request = contact_request("unique@example.com", Some("Unique User"), None);
    backend.create_contact(controller, request).unwrap();
    let contact_opt = backend
        .get_contact_by_email(controller, "unique@example.com")
        .expect("Admin should be able to get contact by email");
    assert!(contact_opt.is_some());
    assert_eq!(contact_opt.unwrap().email, "unique@example.com");
}

#[test]
fn test_get_contacts_with_filters() {
    let (mut backend, controller) = setup();
    for (email, source) in [
        ("marketing1@example.com", ContactSource::Marketing),
        ("marketing2@example.com", ContactSource::Marketing),
        ("referral@example.com", ContactSource::Referral),
    ] {
        backend.create_contact(controller, contact_request(email, None, Some(source))).unwrap();
    }
    let filter = ContactFilter { source: Some(ContactSource::Marketing), status: None, search: None };
    let contacts = backend.get_contacts(controller, Some(filter), None).unwrap();
    assert_eq!(contacts.items.len(), 2, "Should have 2 marketing contacts");
    assert!(contacts.items.iter().all(|c| c.source == ContactSource::Marketing));
}

#[test]
fn test_get_contacts_pagination() {
    let (mut backend, controller) = setup();
    for i in 0..5 {
        let email = format!("user{}@example.com", i);
        backend.create_contact(controller, contact_request(&email, None, None)).unwrap();
    }
    let pagination = PaginationParams { offset: Some(0), limit: Some(2) };
    let page = backend.get_contacts(controller, None, Some(pagination)).unwrap();
    assert_eq!(page.items.len(), 2, "Should return 2 items per page");
    assert_eq!(page.total, 5, "Total should be 5");
    assert_eq!(page.offset, 0);
    assert_eq!(page.limit, 2);
}

#[test]
fn test_create_contact_from_signup_creates_deal() {
    let (mut backend, controller) = setup();
    let user_service_principal = principal("rrkah-fqaaa-aaaaa-aaaaq-cai");
    backend.register_authorized_canister(controller, "user-service", user_service_principal).unwrap();
    let request = contact_request("signup@example.com", Some("New Signup"), None);
    let contact = backend
        .create_contact_from_signup(user_service_principal, request)
        .expect("Authorized canister should create contact from signup");
    assert_eq!(contact.email, "signup@example.com");
    let filter = DealFilter { contact_id: Some(contact.id), stage: None };
    let deals = backend.get_deals(controller, Some(filter), None).unwrap();
    assert_eq!(deals.items.len(), 1, "Should have auto-created one deal");
    assert!(deals.items[0].name.contains("signup"), "Deal name should reference signup");
}

#[test]
fn test_create_deal_linked_to_contact() {
    let (mut backend, controller) = setup();
    let contact = backend
        .create_contact(controller, contact_request("deal-test@example.com", Some("Deal Test"), None))
        .unwrap();
    let deal_request = CreateDealRequest {
        contact_id: contact.id,
        name: "Big Enterprise Deal".to_string(),
        value: Some(50000),
        notes: Some("Important deal".to_string()),
        expected_close_date: Some(1735689600),
    };
    let deal = backend.create_deal(controller, deal_request).expect("Should create deal");
    assert_eq!(deal.contact_id, contact.id);
    assert_eq!(deal.name, "Big Enterprise Deal");
    assert_eq!(deal.value, Some(50000));
    assert_eq!(deal.stage, DealStage::Lead);
}

#[test]
fn test_create_deal_with_invalid_contact_fails() {
    let (mut backend, controller) = setup();
    let deal_request = CreateDealRequest {
        contact_id: 99999,
        name: "Invalid Deal".to_string(),
        value: None,
        notes: None,
        expected_close_date: None,
    };
    let result = backend.create_deal(controller, deal_request);
    assert!(result.is_err(), "Should fail with invalid contact_id: {:?}", result);
}

#[test]
fn test_get_deal_returns_created_deal() {
    let (mut backend, controller) = setup();
    let contact =
        backend.create_contact(controller, contact_request("getdeal@example.com", None, None)).unwrap();
    let deal_request = CreateDealRequest {
        contact_id: contact.id,
        name: "Fetchable Deal".to_string(),
        value: Some(10000),
        notes: None,
        expected_close_date: None,
    };
    let created = backend.create_deal(controller, deal_request).unwrap();
    let deal_opt = backend.get_deal(controller, created.id).expect("Admin should be able to get deal");
    assert!(deal_opt.is_some());
    assert_eq!(deal_opt.unwrap().name, "Fetchable Deal");
}

#[test]
fn test_get_deal_returns_none_for_nonexistent() {
    let (backend, controller) = setup();
    let deal_opt = backend.get_deal(controller, 99999u64).expect("Admin should be able to query");
    assert!(deal_opt.is_none());
}

#[test]
fn test_update_deal_stage() {
    let (mut backend, controller) = setup();
    let contact = backend
        .create_contact(controller, contact_request("stagetrans@example.com", None, None))
        .unwrap();
    let deal_request = CreateDealRequest {
        contact_id: contact.id,
        name: "Stage Test Deal".to_string(),
        value: None,
        notes: None,
        expected_close_date: None,
    };
    let deal = backend.create_deal(controller, deal_request).unwrap();
    assert_eq!(deal.stage, DealStage::Lead);
    let updated = backend.update_deal_stage(controller, deal.id, DealStage::Qualified).unwrap();
    assert_eq!(updated.stage, DealStage::Qualified);
}

#[test]
fn test_update_deal_stage_nonexistent_fails() {
    let (mut backend, controller) = setup();
    let result = backend.update_deal_stage(controller, 99999u64, DealStage::Qualified);
    assert!(result.is_err());
}

#[test]
fn test_get_deals_with_filters() {
    let (mut backend, controller) = setup();
    let contact = backend
        .create_contact(controller, contact_request("dealsfilter@example.com", None, None))
        .unwrap();
    for name in ["Deal A", "Deal B"] {
        let deal_request = CreateDealRequest {
            contact_id: contact.id,
            name: name.to_string(),
            value: None,
            notes: None,
            expected_close_date: None,
        };
        backend.create_deal(controller, deal_request).unwrap();
    }
    let filter = DealFilter { contact_id: Some(contact.id), stage: None };
    let deals = backend.get_deals(controller, Some(filter), None).unwrap();
    assert_eq!(deals.items.len(), 2);
}

#[test]
fn test_deal_stage_workflow() {
    let (mut backend, controller) = setup();
    let contact =
        backend.create_contact(controller, contact_request("workflow@example.com", None, None)).unwrap();
    let deal_request = CreateDealRequest {
        contact_id: contact.id,
        name: "Workflow Deal".to_string(),
        value: Some(100000),
        notes: None,
        expected_close_date: None,
    };
    let deal = backend.create_deal(controller, deal_request).unwrap();
    let stages =
        [DealStage::Qualified, DealStage::Proposal, DealStage::Negotiation, DealStage::ClosedWon];
    let mut current_deal = deal;
    for stage in stages {
        current_deal = backend.update_deal_stage(controller, current_deal.id, stage).unwrap();
        assert_eq!(current_deal.stage, stage);
    }
    assert_eq!(current_deal.stage, DealStage::ClosedWon);
}

#[test]
fn test_create_transaction_income() {
    let (mut backend, controller) = setup();
    let request = CreateTransactionRequest {
        transaction_type: TransactionType::Income,
        category: TransactionCategory::Subscription,
        amount: 9900,
        currency: Some("USD".to_string()),
        description: "Monthly subscription".to_string(),
        reference: Some("SUB-001".to_string()),
        date: Some(1704067200),
    };
    let tx = backend.create_transaction(controller, request).expect("Should create income transaction");
    assert_eq!(tx.transaction_type, TransactionType::Income);
    assert_eq!(tx.category, TransactionCategory::Subscription);
    assert_eq!(tx.amount, 9900);
}

#[test]
fn test_create_transaction_expense() {
    let (mut backend, controller) = setup();
    let request = CreateTransactionRequest {
        transaction_type: TransactionType::Expense,
        category: TransactionCategory::Infrastructure,
        amount: 50000,
        currency: Some("USD".to_string()),
        description: "Server costs".to_string(),
        reference: None,
        date: None,
    };
    let tx = backend.create_transaction(controller, request).expect("Should create expense transaction");
    assert_eq!(tx.transaction_type, TransactionType::Expense);
    assert_eq!(tx.category, TransactionCategory::Infrastructure);
}

#[test]
fn test_get_transactions_with_filters() {
    let (mut backend, controller) = setup();
    for (tx_type, category, amount) in [
        (TransactionType::Income, TransactionCategory::Subscription, 1000),
        (TransactionType::Income, TransactionCategory::Donation, 500),
        (TransactionType::Expense, TransactionCategory::Payroll, 2000),
    ] {
        let request = CreateTransactionRequest {
            transaction_type: tx_type,
            category,
            amount,
            currency: None,
            description: "Test transaction".to_string(),
            reference: None,
            date: None,
        };
        backend.create_transaction(controller, request).unwrap();
    }
    let filter = TransactionFilter {
        transaction_type: Some(TransactionType::Income),
        category: None,
        from_date: None,
        to_date: None,
    };
    let transactions = backend.get_transactions(controller, Some(filter), None).unwrap();
    assert_eq!(transactions.items.len(), 2, "Should have 2 income transactions");
    assert!(transactions.items.iter().all(|t| t.transaction_type == TransactionType::Income));
}

#[test]
fn test_get_financial_summary() {
    let (mut backend, controller) = setup();
    let base_time = 1704067200u64;
    for amount in [10000, 20000, 5000] {
        let request = CreateTransactionRequest {
            transaction_type: TransactionType::Income,
            category: TransactionCategory::Subscription,
            amount,
            currency: None,
            description: "Income".to_string(),
            reference: None,
            date: Some(base_time + 86400),
        };
        backend.create_transaction(controller, request).unwrap();
    }
    for amount in [3000, 2000] {
        let request = CreateTransactionRequest {
            transaction_type: TransactionType::Expense,
            category: TransactionCategory::Infrastructure,
            amount,
            currency: None,
            description: "Expense".to_string(),
            reference: None,
            date: Some(base_time + 86400),
        };
        backend.create_transaction(controller, request).unwrap();
    }
    let summary = backend
        .get_financial_summary(controller, base_time, base_time + 604800)
        .expect("Should get financial summary");
    assert_eq!(summary.total_income, 35000, "Total income should be 35000");
    assert_eq!(summary.total_expenses, 5000, "Total expenses should be 5000");
    assert_eq!(summary.net, 30000, "Net should be 30000");
}

fn flag_request(key: &str, enabled: bool) -> SetFeatureFlagRequest {
    SetFeatureFlagRequest {
        key: key.to_string(),
        enabled,
        description: None,
        percentage: None,
        allowed_principals: None,
    }
}

#[test]
fn test_set_feature_flag() {
    let (mut backend, controller) = setup();
    let request = SetFeatureFlagRequest {
        key: "new_dashboard".to_string(),
        enabled: true,
        description: Some("Enable new dashboard UI".to_string()),
        percentage: None,
        allowed_principals: None,
    };
    let result = backend.set_feature_flag(controller, request);
    assert!(result.is_ok(), "Should set feature flag successfully");
}

#[test]
fn test_get_feature_flag() {
    let (mut backend, controller) = setup();
    let request = SetFeatureFlagRequest {
        key: "beta_feature".to_string(),
        enabled: false,
        description: Some("Beta testing".to_string()),
        percentage: Some(50),
        allowed_principals: None,
    };
    backend.set_feature_flag(controller, request).unwrap();
    let result = backend.get_feature_flag("beta_feature");
    assert!(result.is_some());
    let flag = result.unwrap();
    assert_eq!(flag.key, "beta_feature");
    assert!(!flag.enabled);
    assert_eq!(flag.percentage, Some(50));
}

#[test]
fn test_get_feature_flag_returns_none_for_nonexistent() {
    let (backend, _) = setup();
    let result = backend.get_feature_flag("nonexistent_flag");
    assert!(result.is_none());
}

#[test]
fn test_is_feature_enabled_true() {
    let (mut backend, controller) = setup();
    backend.set_feature_flag(controller, flag_request("enabled_feature", true)).unwrap();
    let result = backend.is_feature_enabled(Principal::anonymous(), "enabled_feature");
    assert!(result, "Feature should be enabled");
}

#[test]
fn test_is_feature_enabled_false() {
    let (mut backend, controller) = setup();
    backend.set_feature_flag(controller, flag_request("disabled_feature", false)).unwrap();
    let result = backend.is_feature_enabled(Principal::anonymous(), "disabled_feature");
    assert!(!result, "Feature should be disabled");
}

#[test]
fn test_feature_flag_percentage_rollout() {
    let (mut backend, controller) = setup();
    let request = SetFeatureFlagRequest {
        key: "percentage_feature".to_string(),
        enabled: true,
        description: None,
        percentage: Some(100),
        allowed_principals: None,
    };
    backend.set_feature_flag(controller, request).unwrap();
    let result = backend.is_feature_enabled(Principal::anonymous(), "percentage_feature");
    assert!(result, "100% rollout should be enabled");
}

#[test]
fn test_feature_flag_principal_whitelist() {
    let (mut backend, controller) = setup();
    let allowed = non_admin_principal();
    let request = SetFeatureFlagRequest {
        key: "whitelist_feature".to_string(),
        enabled: true,
        description: None,
        percentage: None,
        allowed_principals: Some(vec![allowed]),
    };
    backend.set_feature_flag(controller, request).unwrap();
    let flag = backend.get_feature_flag("whitelist_feature");
    assert!(flag.is_some());
    assert!(flag.unwrap().allowed_principals.contains(&allowed));
}

#[test]
fn test_list_feature_flags() {
    let (mut backend, controller) = setup();
    for key in ["flag_a", "flag_b", "flag_c"] {
        backend.set_feature_flag(controller, flag_request(key, true)).unwrap();
    }
    let flags = backend.list_feature_flags(controller).expect("Should list flags");
    assert_eq!(flags.len(), 3, "Should have 3 feature flags");
}

#[test]
fn test_log_activity() {
    let (mut backend, controller) = setup();
    let response = backend.update_call(|b| {
        b.log_activity(
            controller,
            "user-123".to_string(),
            "page_view".to_string(),
            Some("/dashboard".to_string()),
        )
    });
    assert!(response.is_ok(), "log_activity call should not fail");
    let result: Result<(), String> = response.unwrap();
    assert!(result.is_ok(), "Admin should be able to log activity");
}

#[test]
fn test_record_metrics_by_admin() {
    let (mut backend, controller) = setup();
    let snapshot = MetricsSnapshot {
        total_users: 1000,
        active_users_24h: 150,
        active_users_7d: 400,
        active_users_30d: 700,
        total_captures: 5000,
        total_sprints: 200,
        total_workspaces: 50,
        timestamp: 1704067200,
    };
    let result = backend.record_metrics(controller, snapshot);
    assert!(result.is_ok(), "Admin should be able to record metrics");
}

#[test]
fn test_record_metrics_by_non_admin_fails() {
    let (mut backend, _) = setup();
    let non_admin = non_admin_principal();
    let snapshot = MetricsSnapshot {
        total_users: 100,
        active_users_24h: 10,
        active_users_7d: 30,
        active_users_30d: 50,
        total_captures: 200,
        total_sprints: 10,
        total_workspaces: 5,
        timestamp: 1704067200,
    };
    let result = backend.record_metrics(non_admin, snapshot);
    assert!(result.is_err(), "Non-admin should not be able to record metrics");
}

#[test]
fn test_get_admin_stats() {
    let (mut backend, controller) = setup();
    let contact =
        backend.create_contact(controller, contact_request("stats@example.com", None, None)).unwrap();
    let deal_request = CreateDealRequest {
        contact_id: contact.id,
        name: "Stats Deal".to_string(),
        value: None,
        notes: None,
        expected_close_date: None,
    };
    backend.create_deal(controller, deal_request).unwrap();
    let tx_request = CreateTransactionRequest {
        transaction_type: TransactionType::Income,
        category: TransactionCategory::Subscription,
        amount: 1000,
        currency: None,
        description: "Stats tx".to_string(),
        reference: None,
        date: None,
    };
    backend.create_transaction(controller, tx_request).unwrap();
    backend.set_feature_flag(controller, flag_request("stats_flag", true)).unwrap();
    let stats = backend.get_admin_stats(controller).expect("Should get admin stats");
    assert_eq!(stats.total_contacts, 1);
    assert_eq!(stats.total_deals, 1);
    assert_eq!(stats.total_transactions, 1);
    assert_eq!(stats.active_feature_flags, 1);
}

#[test]
fn test_list_metrics_returns_empty_when_no_metrics() {
    let (backend, controller) = setup();
    let metrics = backend.list_metrics(controller, 0u64, u64::MAX, None).expect("Should succeed for admin");
    assert!(metrics.is_empty(), "Should return empty vec when no metrics recorded");
}

#[test]
fn test_get_latest_metrics_returns_none_when_no_metrics() {
    let (backend, controller) = setup();
    let metrics = backend.get_latest_metrics(controller).expect("Should succeed for admin");
    assert!(metrics.is_none(), "Should return None when no metrics recorded");
}

#[test]
fn test_list_metrics_requires_admin() {
    let (backend, _) = setup();
    let non_admin = non_admin_principal();
    let result = backend.list_metrics(non_admin, 0u64, u64::MAX, None);
    assert!(result.is_err(), "Non-admin should not be able to list metrics");
}

#[test]
fn test_get_latest_metrics_requires_admin() {
    let (backend, _) = setup();
    let non_admin = non_admin_principal();
    let result = backend.get_latest_metrics(non_admin);
    assert!(result.is_err(), "Non-admin should not be able to get latest metrics");
}

#[test]
fn test_record_and_list_metrics() {
    let (mut backend, controller) = setup();
    let snapshot1 = MetricsSnapshot {
        total_users: 100,
        active_users_24h: 50,
        active_users_7d: 80,
        active_users_30d: 95,
        total_captures: 1000,
        total_sprints: 10,
        total_workspaces: 5,
        timestamp: 1000000000000000000,
    };
    let result = backend.record_metrics(controller, snapshot1.clone());
    assert!(result.is_ok(), "Record metrics should succeed");
    let metrics = backend.list_metrics(controller, 0u64, u64::MAX, None).expect("Should succeed for admin");
    assert_eq!(metrics.len(), 1, "Should have 1 metrics snapshot");
    assert_eq!(metrics[0].total_users, 100);
    assert_eq!(metrics[0].active_users_24h, 50);
}

#[test]
fn test_get_latest_metrics_returns_most_recent() {
    let (mut backend, controller) = setup();
    let snapshot1 = MetricsSnapshot {
        total_users: 100,
        active_users_24h: 50,
        active_users_7d: 80,
        active_users_30d: 95,
        total_captures: 1000,
        total_sprints: 10,
        total_workspaces: 5,
        timestamp: 1000000000000000000,
    };
    let snapshot2 = MetricsSnapshot {
        total_users: 150,
        active_users_24h: 75,
        active_users_7d: 120,
        active_users_30d: 140,
        total_captures: 1500,
        total_sprints: 15,
        total_workspaces: 8,
        timestamp: 2000000000000000000,
    };
    backend.record_metrics(controller, snapshot1).unwrap();
    backend.record_metrics(controller, snapshot2).unwrap();
    let latest = backend
        .get_latest_metrics(controller)
        .expect("Should succeed for admin")
        .expect("Should have latest metrics");
    assert_eq!(latest.total_users, 150, "Should return most recent snapshot");
    assert_eq!(latest.timestamp, 2000000000000000000);
}

#[test]
fn test_list_metrics_respects_date_range() {
    let (mut backend, controller) = setup();
    let timestamps = [1000000000000000000u64, 2000000000000000000u64, 3000000000000000000u64];
    for (i, ts) in timestamps.iter().enumerate() {
        let snapshot = MetricsSnapshot {
            total_users: (i + 1) as u64 * 100,
            active_users_24h: 50,
            active_users_7d: 80,
            active_users_30d: 95,
            total_captures: 1000,
            total_sprints: 10,
            total_workspaces: 5,
            timestamp: *ts,
        };
        backend.record_metrics(controller, snapshot).unwrap();
    }
    let metrics = backend
        .list_metrics(controller, 1500000000000000000u64, 2500000000000000000u64, None)
        .expect("Should succeed for admin");
    assert_eq!(metrics.len(), 1, "Should only return snapshot in date range");
    assert_eq!(metrics[0].total_users, 200, "Should be the second snapshot");
}

#[test]
fn test_list_metrics_respects_limit() {
    let (mut backend, controller) = setup();
    for i in 0..5 {
        let snapshot = MetricsSnapshot {
            total_users: (i + 1) as u64 * 100,
            active_users_24h: 50,
            active_users_7d: 80,
            active_users_30d: 95,
            total_captures: 1000,
            total_sprints: 10,
            total_workspaces: 5,
            timestamp: (i + 1) as u64 * 1000000000000000000,
        };
        backend.record_metrics(controller, snapshot).unwrap();
    }
    let metrics =
        backend.list_metrics(controller, 0u64, u64::MAX, Some(2u64)).expect("Should succeed for admin");
    assert_eq!(metrics.len(), 2, "Should respect limit parameter");
    assert_eq!(metrics[0].total_users, 500, "First should be newest");
    assert_eq!(metrics[1].total_users, 400, "Second should be second newest");
}

#[test]
fn test_record_metrics_requires_admin() {
    let (mut backend, _) = setup();
    let non_admin = non_admin_principal();
    let snapshot = MetricsSnapshot {
        total_users: 100,
        active_users_24h: 50,
        active_users_7d: 80,
        active_users_30d: 95,
        total_captures: 1000,
        total_sprints: 10,
        total_workspaces: 5,
        timestamp: 1000000000000000000,
    };
    let result = backend.record_metrics(non_admin, snapshot);
    assert!(result.is_err(), "Non-admin should not be able to record metrics");
}

#[test]
fn test_create_contact_from_signup_requires_authorized_canister() {
    let (mut backend, _controller) = setup();
    let non_admin = non_admin_principal();
    let request = CreateContactRequest {
        user_id: Some("user-123".to_string()),
        email: "test@example.com".to_string(),
        name: Some("Test User".to_string()),
        company: None,
        job_title: None,
        interest_area: None,
        source: Some(ContactSource::Signup),
        notes: None,
    };
    let result = backend.create_contact_from_signup(non_admin, request);
    assert!(
        result.is_err(),
        "Unauthorized principal should not be able to call create_contact_from_signup"
    );
    assert!(
        result.unwrap_err().contains("Expected user-service canister"),
        "Error message should indicate expected canister"
    );
}

#[test]
fn test_create_contact_from_signup_anonymous_rejected() {
    let (mut backend, _controller) = setup();
    let request = CreateContactRequest {
        user_id: Some("user-123".to_string()),
        email: "anon@example.com".to_string(),
        name: None,
        company: None,
        job_title: None,
        interest_area: None,
        source: Some(ContactSource::Signup),
        notes: None,
    };
    let result = backend.create_contact_from_signup(Principal::anonymous(), request);
    assert!(
        result.is_err(),
        "Anonymous identity should not be able to call create_contact_from_signup"
    );
}

#[test]
fn test_register_authorized_canister_controller_check_runs() {
    let (mut backend, controller) = setup();
    let canister_to_authorize = principal("rrkah-fqaaa-aaaaa-aaaaq-cai");
    let response = backend
        .update_call(|b| b.register_authorized_canister(controller, "user-service", canister_to_authorize));
    assert!(response.is_ok(), "register_authorized_canister call should complete");
    let result: Result<(), String> = response.unwrap();
    assert!(result.is_ok(), "Controller should be able to register authorized canister");
}

#[test]
fn test_register_and_use_authorized_canister() {
    let (mut backend, controller) = setup();
    let user_service_canister = principal("rrkah-fqaaa-aaaaa-aaaaq-cai");
    let result = backend.register_authorized_canister(controller, "user-service", user_service_canister);
    assert!(result.is_ok(), "Controller should be able to register authorized canister");
    let canisters = backend.list_authorized_canisters(controller).expect("Should succeed");
    assert!(
        canisters.iter().any(|(role, id)| role == "user-service" && *id == user_service_canister),
        "user-service should be in authorized canisters list"
    );
}

#[test]
fn test_log_activity_requires_authorization() {
    let (mut backend, _controller) = setup();
    let non_admin = non_admin_principal();
    let result = backend.log_activity(non_admin, "user-123".to_string(), "login".to_string(), None);
    assert!(result.is_err(), "Non-authorized principal should not be able to log activity");
    assert!(
        result.unwrap_err().contains("Requires admin or authorized canister"),
        "Error message should indicate authorization required"
    );
}

#[test]
fn test_log_activity_admin_succeeds() {
    let (mut backend, controller) = setup();
    let result = backend.log_activity(
        controller,
        "user-123".to_string(),
        "login".to_string(),
        Some("metadata".to_string()),
    );
    assert!(result.is_ok(), "Admin should be able to log activity");
}

#[test]
fn test_log_activity_anonymous_rejected() {
    let (mut backend, _controller) = setup();
    let result =
        backend.log_activity(Principal::anonymous(), "anon-user".to_string(), "test".to_string(), None);
    assert!(result.is_err(), "Anonymous identity should not be able to log activity");
}

#[test]
fn test_log_activity_rate_limit() {
    let (mut backend, controller) = setup();
    for i in 0..100 {
        let result = backend.log_activity(controller, format!("user-{}", i), "rate_test".to_string(), None);
        assert!(result.is_ok(), "Call {} should succeed within rate limit", i);
    }
    let result = backend.log_activity(controller, "user-101".to_string(), "rate_test".to_string(), None);
    assert!(result.is_err(), "Call 101 should be rate limited");
    assert!(
        result.unwrap_err().contains("Rate limit exceeded"),
        "Error message should indicate rate limit exceeded"
    );
}

#[test]
fn test_log_activity_rate_limit_resets_after_window() {
    let (mut backend, controller) = setup();
    for i in 0..100 {
        let result = backend.log_activity(controller, format!("user-{}", i), "rate_test".to_string(), None);
        assert!(result.is_ok(), "Call {} should succeed", i);
    }
    let result = backend.log_activity(controller, "user-blocked".to_string(), "rate_test".to_string(), None);
    assert!(result.is_err(), "Should be rate limited");
    backend.advance_time(61);
    let result =
        backend.log_activity(controller, "user-after-window".to_string(), "rate_test".to_string(), None);
    assert!(result.is_ok(), "Call should succeed after rate limit window resets");
}

#[test]
fn test_get_contact_requires_admin() {
    let (mut backend, controller) = setup();
    let non_admin = non_admin_principal();
    let request =
        contact_request("admin-created@example.com", Some("Admin Created"), Some(ContactSource::Signup));
    let contact = backend.create_contact(controller, request).expect("Admin should create contact");
    let result = backend.get_contact(non_admin, contact.id);
    assert!(result.is_err(), "Non-admin should not be able to get contact");
    assert!(
        result.unwrap_err().contains("Admin access required"),
        "Error should indicate admin required"
    );
}

#[test]
fn test_get_contact_admin_succeeds() {
    let (mut backend, controller) = setup();
    let request = contact_request("admin-test@example.com", Some("Admin Test"), Some(ContactSource::Signup));
    let contact = backend.create_contact(controller, request).expect("Admin should create contact");
    let result = backend.get_contact(controller, contact.id);
    assert!(result.is_ok(), "Admin should be able to get contact");
    let found = result.unwrap();
    assert!(found.is_some(), "Contact should exist");
    assert_eq!(found.unwrap().email, "admin-test@example.com");
}

#[test]
fn test_get_contact_by_email_requires_admin() {
    let (mut backend, controller) = setup();
    let non_admin = non_admin_principal();
    let request = contact_request("email-test@example.com", Some("Email Test"), Some(ContactSource::Signup));
    backend.create_contact(controller, request).unwrap();
    let result = backend.get_contact_by_email(non_admin, "email-test@example.com");
    assert!(result.is_err(), "Non-admin should not be able to get contact by email");
}

#[test]
fn test_get_deal_requires_admin() {
    let (mut backend, controller) = setup();
    let non_admin = non_admin_principal();
    let contact_request =
        contact_request("deal-test@example.com", Some("Deal Test"), Some(ContactSource::Signup));
    let contact = backend.create_contact(controller, contact_request).expect("Should create contact");
    let deal_request = CreateDealRequest {
        contact_id: contact.id,
        name: "Test Deal".to_string(),
        value: Some(10000),
        notes: None,
        expected_close_date: None,
    };
    let deal = backend.create_deal(controller, deal_request).expect("Should create deal");
    let result = backend.get_deal(non_admin, deal.id);
    assert!(result.is_err(), "Non-admin should not be able to get deal");
}

#[test]
fn test_get_admins_requires_admin() {
    let (backend, _controller) = setup();
    let non_admin = non_admin_principal();
    let result = backend.get_admins(non_admin);
    assert!(result.is_err(), "Non-admin should not be able to get admin list");
    assert!(
        result.unwrap_err().contains("Admin access required"),
        "Error should indicate admin required"
    );
}

#[test]
fn test_get_admins_admin_succeeds() {
    let (backend, controller) = setup();
    let result = backend.get_admins(controller);
    assert!(result.is_ok(), "Admin should be able to get admin list");
    let admins = result.unwrap();
    assert!(!admins.is_empty(), "Admin list should not be empty");
    assert!(admins.contains(&controller), "Controller should be in admin list");
}

#[test]
fn test_anonymous_cannot_get_contact() {
    let (mut backend, controller) = setup();
    let request = contact_request("anon-test@example.com", Some("Anon Test"), Some(ContactSource::Signup));
    let contact = backend.create_contact(controller, request).expect("Should create contact");
    let result = backend.get_contact(Principal::anonymous(), contact.id);
    assert!(result.is_err(), "Anonymous should not be able to get contact");
}

#[test]
fn test_anonymous_cannot_get_admins() {
    let (backend, _controller) = setup();
    let result = backend.get_admins(Principal::anonymous());
    assert!(result.is_err(), "Anonymous should not be able to get admin list");
}

#[test]
fn test_anonymous_cannot_create_contact() {
    let (mut backend, _controller) = setup();
    let request =
        contact_request("anon-create@example.com", Some("Anon Create"), Some(ContactSource::Signup));
    let result = backend.create_contact(Principal::anonymous(), request);
    assert!(result.is_err(), "Anonymous should not be able to create contact");
}
