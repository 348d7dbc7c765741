//! Access-controlled record store for an administrative backend: contacts,
//! deals, a transaction ledger, feature flags, audit and activity logs, with
//! row-level security, granular permissions, a sliding-window rate limiter
//! and a snapshot that survives process replacement.

pub mod api;
pub mod copies;
pub mod details;
pub mod invariants;
pub mod laws;
pub mod ordered;
pub mod principal;
pub mod roundtrip;
pub mod seqs;
pub mod sorted_map;
pub mod state;
pub mod text;
pub mod types;
pub mod validation;

pub use principal::Principal;
pub use state::snapshot::StableState;
pub use state::State;
pub use types::{
    AdminPermission, AdminStats, AuditLogEntry, Contact, ContactFilter, ContactId, ContactSource,
    ContactStatus, CreateContactRequest, CreateDealRequest, CreateTransactionRequest, Deal,
    DealFilter, DealId, DealStage, FeatureFlag, FinancialSummary, MetricsSnapshot,
    PaginatedResponse, PaginationParams, SetFeatureFlagRequest, Timestamp, Transaction,
    TransactionCategory, TransactionFilter, TransactionId, TransactionType, UpdateContactRequest,
    UpdateDealRequest, UserActivity,
};
