//! The store: every record of the backend, and who may do what.

use vstd::prelude::*;
use std::collections::BTreeMap;
use crate::principal::Principal;
use crate::sorted_map::SortedMap;
use crate::types::{
    AdminPermission, AuditLogEntry, Contact, ContactId, Deal, DealId, FeatureFlag, FeatureFlagView,
    MetricsSnapshot, Transaction, TransactionId, UserActivity,
};

pub mod contacts;
pub mod deals;
pub mod flags;
pub mod ledger;
pub mod limiter;
pub mod logs;
pub mod permissions;
pub mod registry;
pub mod snapshot;
pub mod upgrade;

verus! {

/// The span of the rate limiter's window, in nanoseconds: one minute.
pub const RATE_LIMIT_WINDOW_NS: u64 = 60_000_000_000;

/// The number of calls that one identity may make within one window.
pub const RATE_LIMIT_MAX_CALLS: usize = 100;

/// The store of the administrative backend.
///
/// The contacts, deals and transactions are kept by their numbers; the email
/// index, the index of user references and the index of a contact's deals
/// are derived from them and can always be rebuilt. The rate limiter's
/// buckets live only as long as the process.
pub struct State {
    controllers: Vec<Principal>,
    admins: Vec<Principal>,
    authorized_canisters: SortedMap<String, Principal>,
    admin_permissions: SortedMap<Principal, Vec<AdminPermission>>,
    rate_limit_buckets: SortedMap<Principal, Vec<u64>>,
    contacts: BTreeMap<ContactId, Contact>,
    contacts_by_email: SortedMap<String, ContactId>,
    contacts_by_user: SortedMap<String, ContactId>,
    next_contact_id: ContactId,
    deals: BTreeMap<DealId, Deal>,
    deals_by_contact: BTreeMap<ContactId, Vec<DealId>>,
    next_deal_id: DealId,
    transactions: BTreeMap<TransactionId, Transaction>,
    next_transaction_id: TransactionId,
    activity_log: Vec<UserActivity>,
    metrics_history: Vec<MetricsSnapshot>,
    feature_flags: SortedMap<String, FeatureFlag>,
    audit_log: Vec<AuditLogEntry>,
    next_audit_log_id: u64,
}

/// What the store holds, as mathematical values.
pub ghost struct StateView {
    /// The identities of highest trust.
    pub controllers: Seq<Principal>,
    /// The day-to-day operators.
    pub admins: Seq<Principal>,
    /// The trusted peer service of each role.
    pub authorized_canisters: Map<Seq<char>, Principal>,
    /// The rights granted to each identity.
    pub admin_permissions: Map<Principal, Seq<AdminPermission>>,
    /// The times of the recent calls of each identity.
    pub rate_limit_buckets: Map<Principal, Seq<u64>>,
    pub contacts: Map<ContactId, Contact>,
    /// From an email in lower case to a contact's number.
    pub contacts_by_email: Map<Seq<char>, ContactId>,
    /// From a user reference to a contact's number.
    pub contacts_by_user: Map<Seq<char>, ContactId>,
    pub next_contact_id: ContactId,
    pub deals: Map<DealId, Deal>,
    /// From a contact's number to the numbers of its deals.
    pub deals_by_contact: Map<ContactId, Seq<DealId>>,
    pub next_deal_id: DealId,
    pub transactions: Map<TransactionId, Transaction>,
    pub next_transaction_id: TransactionId,
    pub activity_log: Seq<UserActivity>,
    pub metrics_history: Seq<MetricsSnapshot>,
    pub feature_flags: Map<Seq<char>, FeatureFlagView>,
    pub audit_log: Seq<AuditLogEntry>,
    pub next_audit_log_id: u64,
}

impl StateView {
    /// The store that holds nothing, and numbers its records from 1.
    pub open spec fn empty() -> StateView {
        StateView {
            controllers: Seq::empty(),
            admins: Seq::empty(),
            authorized_canisters: Map::empty(),
            admin_permissions: Map::empty(),
            rate_limit_buckets: Map::empty(),
            contacts: Map::empty(),
            contacts_by_email: Map::empty(),
            contacts_by_user: Map::empty(),
            next_contact_id: 1,
            deals: Map::empty(),
            deals_by_contact: Map::empty(),
            next_deal_id: 1,
            transactions: Map::empty(),
            next_transaction_id: 1,
            activity_log: Seq::empty(),
            metrics_history: Seq::empty(),
            feature_flags: Map::empty(),
            audit_log: Seq::empty(),
            next_audit_log_id: 1,
        }
    }

    /// Whether `p` is a controller.
    pub open spec fn is_controller(self, p: Principal) -> bool {
        self.controllers.contains(p)
    }

    /// Whether `p` is an admin: listed as one, or a controller.
    pub open spec fn is_admin(self, p: Principal) -> bool {
        self.admins.contains(p) || self.controllers.contains(p)
    }

    /// The store after `p` has been made an admin: nothing changes where
    /// `p` is listed as one already.
    pub open spec fn with_admin(self, p: Principal) -> StateView {
        StateView {
            admins: if self.admins.contains(p) {
                self.admins
            } else {
                self.admins.push(p)
            },
            ..self
        }
    }

    /// The rights granted to `p` by name.
    pub open spec fn granted(self, p: Principal) -> Seq<AdminPermission> {
        if self.admin_permissions.contains_key(p) {
            self.admin_permissions[p]
        } else {
            Seq::empty()
        }
    }

    /// Whether every counter can still number what one more call creates:
    /// a contact, a deal, a transaction and two audit entries at most.
    pub open spec fn has_room(self) -> bool {
        &&& self.next_contact_id < u64::MAX
        &&& self.next_deal_id < u64::MAX
        &&& self.next_transaction_id < u64::MAX
        &&& self.next_audit_log_id < u64::MAX - 1
    }

    /// Whether `p` holds `permission`: a controller holds every right.
    pub open spec fn has_permission(self, p: Principal, permission: AdminPermission) -> bool {
        self.controllers.contains(p) || self.granted(p).contains(permission)
    }
}

impl View for State {
    type V = StateView;

    closed spec fn view(&self) -> StateView {
        StateView {
            controllers: self.controllers@,
            admins: self.admins@,
            authorized_canisters: self.authorized_canisters@,
            admin_permissions: self.admin_permissions@.map_values(
                |l: Vec<AdminPermission>| l@,
            ),
            rate_limit_buckets: self.rate_limit_buckets@.map_values(|l: Vec<u64>| l@),
            contacts: self.contacts@,
            contacts_by_email: self.contacts_by_email@,
            contacts_by_user: self.contacts_by_user@,
            next_contact_id: self.next_contact_id,
            deals: self.deals@,
            deals_by_contact: self.deals_by_contact@.map_values(|l: Vec<DealId>| l@),
            next_deal_id: self.next_deal_id,
            transactions: self.transactions@,
            next_transaction_id: self.next_transaction_id,
            activity_log: self.activity_log@,
            metrics_history: self.metrics_history@,
            feature_flags: self.feature_flags@.map_values(|f: FeatureFlag| f@),
            audit_log: self.audit_log@,
            next_audit_log_id: self.next_audit_log_id,
        }
    }
}

impl State {
    /// The maps of the store are in order. Every store that this library
    /// hands out is well formed.
    pub closed spec fn wf(&self) -> bool {
        &&& self.authorized_canisters.wf()
        &&& self.admin_permissions.wf()
        &&& self.rate_limit_buckets.wf()
        &&& self.contacts_by_email.wf()
        &&& self.contacts_by_user.wf()
        &&& self.feature_flags.wf()
    }

    /// The empty store.
    pub fn new() -> (r: State)
        ensures
            r.wf(),
            r@ == StateView::empty(),
            r@.consistent(),
            r@.contacts_indexed(),
    {
        let r = State {
            controllers: Vec::new(),
            admins: Vec::new(),
            authorized_canisters: SortedMap::new(),
            admin_permissions: SortedMap::new(),
            rate_limit_buckets: SortedMap::new(),
            contacts: BTreeMap::new(),
            contacts_by_email: SortedMap::new(),
            contacts_by_user: SortedMap::new(),
            next_contact_id: 1,
            deals: BTreeMap::new(),
            deals_by_contact: BTreeMap::new(),
            next_deal_id: 1,
            transactions: BTreeMap::new(),
            next_transaction_id: 1,
            activity_log: Vec::new(),
            metrics_history: Vec::new(),
            feature_flags: SortedMap::new(),
            audit_log: Vec::new(),
            next_audit_log_id: 1,
        };
        proof {
            assert(r@.admin_permissions =~= Map::empty());
            assert(r@.rate_limit_buckets =~= Map::empty());
            assert(r@.deals_by_contact =~= Map::empty());
            assert(r@.feature_flags =~= Map::empty());
        }
        r
    }
}

impl State {
    /// Whether every counter can still number what one more call creates.
    /// The counters have 64 bits, and a call takes one number of a kind, two
    /// for the audit log at most.
    pub fn has_room(&self) -> (r: bool)
        ensures
            r == self@.has_room(),
    {
        self.next_contact_id < u64::MAX && self.next_deal_id < u64::MAX && self.next_transaction_id
            < u64::MAX && self.next_audit_log_id < u64::MAX - 1
    }
}

/// Whether `list` holds `p`.
pub fn holds_principal(list: &Vec<Principal>, p: &Principal) -> (r: bool)
    ensures
        r == list@.contains(*p),
{
    let mut i: usize = 0;
    while i < list.len()
        invariant
            i <= list@.len(),
            forall|j: int| 0 <= j < i ==> list@[j] != *p,
        decreases list@.len() - i,
    {
        if list[i] == *p {
            return true;
        }
        i += 1;
    }
    false
}

} // verus!
