//! The records of the store, and the requests that create and change them.

use vstd::prelude::*;
use crate::copies::copy_list;
use crate::principal::Principal;

verus! {

/// The number of a contact. Numbers are issued from 1 on, in ascending order.
pub type ContactId = u64;

/// The number of a deal.
pub type DealId = u64;

/// The number of a transaction.
pub type TransactionId = u64;

/// Nanoseconds since the epoch.
pub type Timestamp = u64;

/// How a contact was acquired.
#[derive(Clone, Copy, Debug, PartialEq, Eq, Structural)]
pub enum ContactSource {
    Signup,
    Referral,
    Marketing,
    Event,
    Partner,
    Other,
}

impl Default for ContactSource {
    fn default() -> (r: Self)
        ensures
            r == ContactSource::Signup,
    {
        ContactSource::Signup
    }
}

impl ContactSource {
    /// The name of the variant.
    pub open spec fn name_text(self) -> Seq<char> {
        match self {
            ContactSource::Signup => "Signup"@,
            ContactSource::Referral => "Referral"@,
            ContactSource::Marketing => "Marketing"@,
            ContactSource::Event => "Event"@,
            ContactSource::Partner => "Partner"@,
            ContactSource::Other => "Other"@,
        }
    }

    /// The name of the variant.
    pub fn name(&self) -> (r: &'static str)
        ensures
            r@ == self.name_text(),
    {
        match self {
            ContactSource::Signup => "Signup",
            ContactSource::Referral => "Referral",
            ContactSource::Marketing => "Marketing",
            ContactSource::Event => "Event",
            ContactSource::Partner => "Partner",
            ContactSource::Other => "Other",
        }
    }
}

/// Whether a contact is still a customer.
#[derive(Clone, Copy, Debug, PartialEq, Eq, Structural)]
pub enum ContactStatus {
    Active,
    Inactive,
    Churned,
}

impl Default for ContactStatus {
    fn default() -> (r: Self)
        ensures
            r == ContactStatus::Active,
    {
        ContactStatus::Active
    }
}

impl ContactStatus {
    /// The name of the variant.
    pub open spec fn name_text(self) -> Seq<char> {
        match self {
            ContactStatus::Active => "Active"@,
            ContactStatus::Inactive => "Inactive"@,
            ContactStatus::Churned => "Churned"@,
        }
    }

    /// The name of the variant.
    pub fn name(&self) -> (r: &'static str)
        ensures
            r@ == self.name_text(),
    {
        match self {
            ContactStatus::Active => "Active",
            ContactStatus::Inactive => "Inactive",
            ContactStatus::Churned => "Churned",
        }
    }
}

/// A contact. Its owner is the identity that created it and never changes;
/// a contact without an owner predates ownership.
#[derive(Debug)]
pub struct Contact {
    pub id: ContactId,
    pub user_id: Option<String>,
    pub email: String,
    pub name: Option<String>,
    pub company: Option<String>,
    pub job_title: Option<String>,
    pub interest_area: Option<String>,
    pub source: ContactSource,
    pub notes: Option<String>,
    pub status: ContactStatus,
    pub owner_id: Option<Principal>,
    pub team_id: Option<String>,
    pub created_at: Timestamp,
    pub updated_at: Timestamp,
}

impl Clone for Contact {
    fn clone(&self) -> (r: Self)
        ensures
            r == *self,
    {
        Contact {
            id: self.id,
            user_id: self.user_id.clone(),
            email: self.email.clone(),
            name: self.name.clone(),
            company: self.company.clone(),
            job_title: self.job_title.clone(),
            interest_area: self.interest_area.clone(),
            source: self.source,
            notes: self.notes.clone(),
            status: self.status,
            owner_id: self.owner_id,
            team_id: self.team_id.clone(),
            created_at: self.created_at,
            updated_at: self.updated_at,
        }
    }
}

/// What is asked for when a contact is created.
#[derive(Debug)]
pub struct CreateContactRequest {
    pub user_id: Option<String>,
    pub email: String,
    pub name: Option<String>,
    pub company: Option<String>,
    pub job_title: Option<String>,
    pub interest_area: Option<String>,
    pub source: Option<ContactSource>,
    pub notes: Option<String>,
}

impl Clone for CreateContactRequest {
    fn clone(&self) -> (r: Self)
        ensures
            r == *self,
    {
        CreateContactRequest {
            user_id: self.user_id.clone(),
            email: self.email.clone(),
            name: self.name.clone(),
            company: self.company.clone(),
            job_title: self.job_title.clone(),
            interest_area: self.interest_area.clone(),
            source: self.source,
            notes: self.notes.clone(),
        }
    }
}

/// A partial update of a contact: a field that is `None` stays as it is.
#[derive(Debug)]
pub struct UpdateContactRequest {
    pub id: ContactId,
    pub name: Option<String>,
    pub company: Option<String>,
    pub job_title: Option<String>,
    pub interest_area: Option<String>,
    pub notes: Option<String>,
    pub status: Option<ContactStatus>,
}

impl Clone for UpdateContactRequest {
    fn clone(&self) -> (r: Self)
        ensures
            r == *self,
    {
        UpdateContactRequest {
            id: self.id,
            name: self.name.clone(),
            company: self.company.clone(),
            job_title: self.job_title.clone(),
            interest_area: self.interest_area.clone(),
            notes: self.notes.clone(),
            status: self.status,
        }
    }
}

/// Where a deal stands in the pipeline.
#[derive(Clone, Copy, Debug, PartialEq, Eq, Structural)]
pub enum DealStage {
    Lead,
    Qualified,
    Proposal,
    Negotiation,
    ClosedWon,
    ClosedLost,
}

impl Default for DealStage {
    fn default() -> (r: Self)
        ensures
            r == DealStage::Lead,
    {
        DealStage::Lead
    }
}

impl DealStage {
    /// The name of the variant.
    pub open spec fn name_text(self) -> Seq<char> {
        match self {
            DealStage::Lead => "Lead"@,
            DealStage::Qualified => "Qualified"@,
            DealStage::Proposal => "Proposal"@,
            DealStage::Negotiation => "Negotiation"@,
            DealStage::ClosedWon => "ClosedWon"@,
            DealStage::ClosedLost => "ClosedLost"@,
        }
    }

    /// The name of the variant.
    pub fn name(&self) -> (r: &'static str)
        ensures
            r@ == self.name_text(),
    {
        match self {
            DealStage::Lead => "Lead",
            DealStage::Qualified => "Qualified",
            DealStage::Proposal => "Proposal",
            DealStage::Negotiation => "Negotiation",
            DealStage::ClosedWon => "ClosedWon",
            DealStage::ClosedLost => "ClosedLost",
        }
    }
}

/// A deal with a contact. The contact existed when the deal was created.
#[derive(Debug)]
pub struct Deal {
    pub id: DealId,
    pub contact_id: ContactId,
    pub name: String,
    pub value: Option<u64>,
    pub stage: DealStage,
    pub notes: Option<String>,
    pub expected_close_date: Option<Timestamp>,
    pub owner_id: Option<Principal>,
    pub created_by: Option<Principal>,
    pub created_at: Timestamp,
    pub updated_at: Timestamp,
}

impl Clone for Deal {
    fn clone(&self) -> (r: Self)
        ensures
            r == *self,
    {
        Deal {
            id: self.id,
            contact_id: self.contact_id,
            name: self.name.clone(),
            value: self.value,
            stage: self.stage,
            notes: self.notes.clone(),
            expected_close_date: self.expected_close_date,
            owner_id: self.owner_id,
            created_by: self.created_by,
            created_at: self.created_at,
            updated_at: self.updated_at,
        }
    }
}

/// What is asked for when a deal is created.
#[derive(Debug)]
pub struct CreateDealRequest {
    pub contact_id: ContactId,
    pub name: String,
    pub value: Option<u64>,
    pub notes: Option<String>,
    pub expected_close_date: Option<Timestamp>,
}

impl Clone for CreateDealRequest {
    fn clone(&self) -> (r: Self)
        ensures
            r == *self,
    {
        CreateDealRequest {
            contact_id: self.contact_id,
            name: self.name.clone(),
            value: self.value,
            notes: self.notes.clone(),
            expected_close_date: self.expected_close_date,
        }
    }
}

/// A partial update of a deal: a field that is `None` stays as it is.
#[derive(Debug)]
pub struct UpdateDealRequest {
    pub id: DealId,
    pub name: Option<String>,
    pub value: Option<u64>,
    pub stage: Option<DealStage>,
    pub notes: Option<String>,
    pub expected_close_date: Option<Timestamp>,
}

impl Clone for UpdateDealRequest {
    fn clone(&self) -> (r: Self)
        ensures
            r == *self,
    {
        UpdateDealRequest {
            id: self.id,
            name: self.name.clone(),
            value: self.value,
            stage: self.stage,
            notes: self.notes.clone(),
            expected_close_date: self.expected_close_date,
        }
    }
}

/// Money in or money out.
#[derive(Clone, Copy, Debug, PartialEq, Eq, Structural)]
pub enum TransactionType {
    Income,
    Expense,
}

/// What a transaction was for.
#[derive(Clone, Copy, Debug, PartialEq, Eq, Structural)]
pub enum TransactionCategory {
    Subscription,
    Donation,
    Service,
    Infrastructure,
    Marketing,
    Payroll,
    Legal,
    Other,
}

impl Default for TransactionCategory {
    fn default() -> (r: Self)
        ensures
            r == TransactionCategory::Other,
    {
        TransactionCategory::Other
    }
}

/// An entry of the ledger. Amounts are in minor currency units.
#[derive(Debug)]
pub struct Transaction {
    pub id: TransactionId,
    pub transaction_type: TransactionType,
    pub category: TransactionCategory,
    pub amount: u64,
    pub currency: String,
    pub description: String,
    pub reference: Option<String>,
    pub date: Timestamp,
    pub created_at: Timestamp,
}

impl Clone for Transaction {
    fn clone(&self) -> (r: Self)
        ensures
            r == *self,
    {
        Transaction {
            id: self.id,
            transaction_type: self.transaction_type,
            category: self.category,
            amount: self.amount,
            currency: self.currency.clone(),
            description: self.description.clone(),
            reference: self.reference.clone(),
            date: self.date,
            created_at: self.created_at,
        }
    }
}

/// What is asked for when a transaction is recorded.
#[derive(Debug)]
pub struct CreateTransactionRequest {
    pub transaction_type: TransactionType,
    pub category: TransactionCategory,
    pub amount: u64,
    pub currency: Option<String>,
    pub description: String,
    pub reference: Option<String>,
    pub date: Option<Timestamp>,
}

impl Clone for CreateTransactionRequest {
    fn clone(&self) -> (r: Self)
        ensures
            r == *self,
    {
        CreateTransactionRequest {
            transaction_type: self.transaction_type,
            category: self.category,
            amount: self.amount,
            currency: self.currency.clone(),
            description: self.description.clone(),
            reference: self.reference.clone(),
            date: self.date,
        }
    }
}

/// Something a user did.
#[derive(Debug)]
pub struct UserActivity {
    pub user_id: String,
    pub action: String,
    pub metadata: Option<String>,
    pub timestamp: Timestamp,
}

impl Clone for UserActivity {
    fn clone(&self) -> (r: Self)
        ensures
            r == *self,
    {
        UserActivity {
            user_id: self.user_id.clone(),
            action: self.action.clone(),
            metadata: self.metadata.clone(),
            timestamp: self.timestamp,
        }
    }
}

/// The platform's counters at one moment.
#[derive(Clone, Copy, Debug, PartialEq, Eq, Structural)]
pub struct MetricsSnapshot {
    pub total_users: u64,
    pub active_users_24h: u64,
    pub active_users_7d: u64,
    pub active_users_30d: u64,
    pub total_captures: u64,
    pub total_sprints: u64,
    pub total_workspaces: u64,
    pub timestamp: Timestamp,
}

/// A feature flag. With a non-empty allow-list only the listed identities
/// have the feature; else a percentage, if there is one, selects them.
#[derive(Debug)]
pub struct FeatureFlag {
    pub key: String,
    pub enabled: bool,
    pub description: Option<String>,
    pub percentage: Option<u8>,
    pub allowed_principals: Vec<Principal>,
    pub updated_at: Timestamp,
}

/// What a feature flag holds.
pub ghost struct FeatureFlagView {
    pub key: String,
    pub enabled: bool,
    pub description: Option<String>,
    pub percentage: Option<u8>,
    pub allowed_principals: Seq<Principal>,
    pub updated_at: Timestamp,
}

impl View for FeatureFlag {
    type V = FeatureFlagView;

    open spec fn view(&self) -> FeatureFlagView {
        FeatureFlagView {
            key: self.key,
            enabled: self.enabled,
            description: self.description,
            percentage: self.percentage,
            allowed_principals: self.allowed_principals@,
            updated_at: self.updated_at,
        }
    }
}

impl Clone for FeatureFlag {
    fn clone(&self) -> (r: Self)
        ensures
            r@ == self@,
    {
        FeatureFlag {
            key: self.key.clone(),
            enabled: self.enabled,
            description: self.description.clone(),
            percentage: self.percentage,
            allowed_principals: copy_list(&self.allowed_principals),
            updated_at: self.updated_at,
        }
    }
}

/// What is asked for when a feature flag is set. The flag is replaced as a
/// whole; without an allow-list the new flag has an empty one.
#[derive(Debug)]
pub struct SetFeatureFlagRequest {
    pub key: String,
    pub enabled: bool,
    pub description: Option<String>,
    pub percentage: Option<u8>,
    pub allowed_principals: Option<Vec<Principal>>,
}

impl SetFeatureFlagRequest {
    /// The allow-list that the new flag gets.
    pub open spec fn allow_list(&self) -> Seq<Principal> {
        match self.allowed_principals {
            Some(list) => list@,
            None => Seq::empty(),
        }
    }
}

/// Which contacts a listing keeps. A field that is `None` keeps all.
#[derive(Debug)]
pub struct ContactFilter {
    pub status: Option<ContactStatus>,
    pub source: Option<ContactSource>,
    pub search: Option<String>,
}

impl Default for ContactFilter {
    fn default() -> (r: Self)
        ensures
            r == (ContactFilter { status: None, source: None, search: None }),
    {
        ContactFilter { status: None, source: None, search: None }
    }
}

/// Which deals a listing keeps. A field that is `None` keeps all.
#[derive(Clone, Copy, Debug)]
pub struct DealFilter {
    pub stage: Option<DealStage>,
    pub contact_id: Option<ContactId>,
}

impl Default for DealFilter {
    fn default() -> (r: Self)
        ensures
            r == (DealFilter { stage: None, contact_id: None }),
    {
        DealFilter { stage: None, contact_id: None }
    }
}

/// Which transactions a listing keeps. A field that is `None` keeps all.
#[derive(Clone, Copy, Debug)]
pub struct TransactionFilter {
    pub transaction_type: Option<TransactionType>,
    pub category: Option<TransactionCategory>,
    pub from_date: Option<Timestamp>,
    pub to_date: Option<Timestamp>,
}

impl Default for TransactionFilter {
    fn default() -> (r: Self)
        ensures
            r == (TransactionFilter {
                transaction_type: None,
                category: None,
                from_date: None,
                to_date: None,
            }),
    {
        TransactionFilter { transaction_type: None, category: None, from_date: None, to_date: None }
    }
}

/// Which page of a listing is wanted. Without an offset the page starts at
/// the first item; without a limit it holds at most 50.
#[derive(Clone, Copy, Debug)]
pub struct PaginationParams {
    pub offset: Option<u64>,
    pub limit: Option<u64>,
}

impl Default for PaginationParams {
    fn default() -> (r: Self)
        ensures
            r == (PaginationParams { offset: Some(0), limit: Some(50) }),
    {
        PaginationParams { offset: Some(0), limit: Some(50) }
    }
}

impl PaginationParams {
    /// The offset that is used.
    pub open spec fn offset_or_default(self) -> u64 {
        match self.offset {
            Some(o) => o,
            None => 0,
        }
    }

    /// The limit that is used.
    pub open spec fn limit_or_default(self) -> u64 {
        match self.limit {
            Some(l) => l,
            None => 50,
        }
    }
}

/// One page of a listing; `total` counts the items of all pages.
#[derive(Debug)]
pub struct PaginatedResponse<T> {
    pub items: Vec<T>,
    pub total: u64,
    pub offset: u64,
    pub limit: u64,
}

/// Income and expenses of a period.
#[derive(Clone, Copy, Debug, PartialEq, Eq, Structural)]
pub struct FinancialSummary {
    pub total_income: u64,
    pub total_expenses: u64,
    pub net: i64,
    pub mrr: u64,
    pub period_start: Timestamp,
    pub period_end: Timestamp,
}

/// A right that can be granted to an identity.
#[derive(Clone, Copy, Debug, PartialEq, Eq, Hash, Structural)]
pub enum AdminPermission {
    ViewOwnContacts,
    ViewAllContacts,
    EditOwnContacts,
    EditAllContacts,
    DeleteOwnContacts,
    DeleteAllContacts,
    ViewOwnDeals,
    ViewAllDeals,
    EditOwnDeals,
    EditAllDeals,
    DeleteOwnDeals,
    DeleteAllDeals,
    ManageFeatureFlags,
    ViewAuditLogs,
}

/// One administrative action, as the audit log keeps it.
#[derive(Debug)]
pub struct AuditLogEntry {
    pub id: u64,
    pub timestamp: Timestamp,
    pub actor: Principal,
    pub action: String,
    pub target_type: String,
    pub target_id: String,
    pub details: Option<String>,
}

impl Clone for AuditLogEntry {
    fn clone(&self) -> (r: Self)
        ensures
            r == *self,
    {
        AuditLogEntry {
            id: self.id,
            timestamp: self.timestamp,
            actor: self.actor,
            action: self.action.clone(),
            target_type: self.target_type.clone(),
            target_id: self.target_id.clone(),
            details: self.details.clone(),
        }
    }
}

/// How many records the store holds.
#[derive(Clone, Copy, Debug, PartialEq, Eq, Structural)]
pub struct AdminStats {
    pub total_contacts: u64,
    pub total_deals: u64,
    pub total_transactions: u64,
    pub active_feature_flags: u64,
}

} // verus!
