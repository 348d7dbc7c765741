//! The snapshot that carries the store over a replacement of the process,
//! and the way back.

use vstd::prelude::*;
use crate::ordered::{ascending_pairs, map_of};
use crate::principal::Principal;
use crate::state::StateView;
use crate::text::{lowercase_text, text_before};
use crate::types::{
    AdminPermission, AuditLogEntry, Contact, ContactId, Deal, DealId, FeatureFlag, FeatureFlagView,
    MetricsSnapshot, Transaction, TransactionId, UserActivity,
};

verus! {

/// What the store holds for good, as flat lists: all of it but the rate
/// limiter's buckets and the indexes, which are derived.
pub struct StableState {
    pub controllers: Vec<Principal>,
    pub admins: Vec<Principal>,
    pub authorized_canisters: Vec<(String, Principal)>,
    pub admin_permissions: Vec<(Principal, Vec<AdminPermission>)>,
    pub contacts: Vec<(ContactId, Contact)>,
    pub next_contact_id: ContactId,
    pub deals: Vec<(DealId, Deal)>,
    pub next_deal_id: DealId,
    pub transactions: Vec<(TransactionId, Transaction)>,
    pub next_transaction_id: TransactionId,
    pub feature_flags: Vec<(String, FeatureFlag)>,
    pub activity_log: Vec<UserActivity>,
    pub metrics_history: Vec<MetricsSnapshot>,
    pub audit_log: Vec<AuditLogEntry>,
    pub next_audit_log_id: u64,
}

/// What a snapshot holds, as mathematical values.
pub ghost struct StableView {
    pub controllers: Seq<Principal>,
    pub admins: Seq<Principal>,
    pub authorized_canisters: Seq<(Seq<char>, Principal)>,
    pub admin_permissions: Seq<(Principal, Seq<AdminPermission>)>,
    pub contacts: Seq<(ContactId, Contact)>,
    pub next_contact_id: ContactId,
    pub deals: Seq<(DealId, Deal)>,
    pub next_deal_id: DealId,
    pub transactions: Seq<(TransactionId, Transaction)>,
    pub next_transaction_id: TransactionId,
    pub feature_flags: Seq<(Seq<char>, FeatureFlagView)>,
    pub activity_log: Seq<UserActivity>,
    pub metrics_history: Seq<MetricsSnapshot>,
    pub audit_log: Seq<AuditLogEntry>,
    pub next_audit_log_id: u64,
}

/// A role and its service, as mathematical values.
pub open spec fn role_pair(e: (String, Principal)) -> (Seq<char>, Principal) {
    (e.0@, e.1)
}

/// An identity and its rights, as mathematical values.
pub open spec fn grant_pair(e: (Principal, Vec<AdminPermission>)) -> (Principal, Seq<AdminPermission>) {
    (e.0, e.1@)
}

/// A key and its flag, as mathematical values.
pub open spec fn flag_pair(e: (String, FeatureFlag)) -> (Seq<char>, FeatureFlagView) {
    (e.0@, e.1@)
}

impl View for StableState {
    type V = StableView;

    open spec fn view(&self) -> StableView {
        StableView {
            controllers: self.controllers@,
            admins: self.admins@,
            authorized_canisters: self.authorized_canisters@.map_values(
                |e: (String, Principal)| role_pair(e),
            ),
            admin_permissions: self.admin_permissions@.map_values(
                |e: (Principal, Vec<AdminPermission>)| grant_pair(e),
            ),
            contacts: self.contacts@,
            next_contact_id: self.next_contact_id,
            deals: self.deals@,
            next_deal_id: self.next_deal_id,
            transactions: self.transactions@,
            next_transaction_id: self.next_transaction_id,
            feature_flags: self.feature_flags@.map_values(|e: (String, FeatureFlag)| flag_pair(e)),
            activity_log: self.activity_log@,
            metrics_history: self.metrics_history@,
            audit_log: self.audit_log@,
            next_audit_log_id: self.next_audit_log_id,
        }
    }
}

/// Whether `list` holds the entries of `m`, each once, in the order of texts.
pub open spec fn lists_by_text<V>(list: Seq<(Seq<char>, V)>, m: Map<Seq<char>, V>) -> bool {
    &&& list.len() == m.len()
    &&& forall|i: int, j: int|
        0 <= i < j < list.len() ==> text_before(
            (#[trigger] list[i]).0,
            (#[trigger] list[j]).0,
        )
    &&& forall|i: int|
        0 <= i < list.len() ==> m.contains_key((#[trigger] list[i]).0) && m[list[i].0] == list[i].1
    &&& forall|k: Seq<char>| #[trigger]
        m.contains_key(k) ==> exists|i: int| 0 <= i < list.len() && (#[trigger] list[i]).0 == k
}

/// Whether `list` holds the entries of `m`, each once, in the order of identities.
pub open spec fn lists_by_principal<V>(list: Seq<(Principal, V)>, m: Map<Principal, V>) -> bool {
    &&& list.len() == m.len()
    &&& forall|i: int, j: int|
        0 <= i < j < list.len() ==> (#[trigger] list[i]).0.comes_before((#[trigger] list[j]).0)
    &&& forall|i: int|
        0 <= i < list.len() ==> m.contains_key((#[trigger] list[i]).0) && m[list[i].0] == list[i].1
    &&& forall|k: Principal| #[trigger]
        m.contains_key(k) ==> exists|i: int| 0 <= i < list.len() && (#[trigger] list[i]).0 == k
}

/// Whether `s` is the snapshot of the store `v`: its lists hold what the
/// store holds, each map in the order of its keys.
pub open spec fn is_snapshot_of(s: StableView, v: StateView) -> bool {
    &&& s.controllers == v.controllers
    &&& s.admins == v.admins
    &&& lists_by_text(s.authorized_canisters, v.authorized_canisters)
    &&& lists_by_principal(s.admin_permissions, v.admin_permissions)
    &&& s.contacts == ascending_pairs(v.contacts)
    &&& s.next_contact_id == v.next_contact_id
    &&& s.deals == ascending_pairs(v.deals)
    &&& s.next_deal_id == v.next_deal_id
    &&& s.transactions == ascending_pairs(v.transactions)
    &&& s.next_transaction_id == v.next_transaction_id
    &&& lists_by_text(s.feature_flags, v.feature_flags)
    &&& s.activity_log == v.activity_log
    &&& s.metrics_history == v.metrics_history
    &&& s.audit_log == v.audit_log
    &&& s.next_audit_log_id == v.next_audit_log_id
}

/// The email index of the contacts `pairs`: of two contacts with one email
/// the later one is found.
pub open spec fn email_index(pairs: Seq<(ContactId, Contact)>) -> Map<Seq<char>, ContactId>
    decreases pairs.len(),
{
    if pairs.len() == 0 {
        Map::empty()
    } else {
        email_index(pairs.drop_last()).insert(
            lowercase_text(pairs.last().1.email@),
            pairs.last().0,
        )
    }
}

/// The index of user references of the contacts `pairs`: of two contacts
/// with one reference the later one is found.
pub open spec fn user_index(pairs: Seq<(ContactId, Contact)>) -> Map<Seq<char>, ContactId>
    decreases pairs.len(),
{
    if pairs.len() == 0 {
        Map::empty()
    } else {
        let earlier = user_index(pairs.drop_last());
        match pairs.last().1.user_id {
            Some(u) => earlier.insert(u@, pairs.last().0),
            None => earlier,
        }
    }
}

/// The deals of a contact, as far as `index` knows.
pub open spec fn listed_deals(index: Map<ContactId, Seq<DealId>>, contact: ContactId) -> Seq<DealId> {
    if index.contains_key(contact) {
        index[contact]
    } else {
        Seq::empty()
    }
}

/// The index from contacts to their deals of the deals `pairs`: each deal
/// stands in the list of its contact, in the order of `pairs`.
pub open spec fn deal_index(pairs: Seq<(DealId, Deal)>) -> Map<ContactId, Seq<DealId>>
    decreases pairs.len(),
{
    if pairs.len() == 0 {
        Map::empty()
    } else {
        let earlier = deal_index(pairs.drop_last());
        let contact = pairs.last().1.contact_id;
        earlier.insert(contact, listed_deals(earlier, contact).push(pairs.last().0))
    }
}

/// The number that the next audit entry gets after a restore: a snapshot
/// that does not know the number starts again at 1.
pub open spec fn restored_audit_id(saved: u64) -> u64 {
    if saved == 0 {
        1
    } else {
        saved
    }
}

/// The store that the snapshot `s` is restored to. Its indexes are built
/// anew from the contacts and the deals, and no call is remembered.
pub open spec fn restored(s: StableView) -> StateView {
    let contacts = map_of(s.contacts);
    let deals = map_of(s.deals);
    StateView {
        controllers: s.controllers,
        admins: s.admins,
        authorized_canisters: map_of(s.authorized_canisters),
        admin_permissions: map_of(s.admin_permissions),
        rate_limit_buckets: Map::empty(),
        contacts,
        contacts_by_email: email_index(ascending_pairs(contacts)),
        contacts_by_user: user_index(ascending_pairs(contacts)),
        next_contact_id: s.next_contact_id,
        deals,
        deals_by_contact: deal_index(ascending_pairs(deals)),
        next_deal_id: s.next_deal_id,
        transactions: map_of(s.transactions),
        next_transaction_id: s.next_transaction_id,
        activity_log: s.activity_log,
        metrics_history: s.metrics_history,
        feature_flags: map_of(s.feature_flags),
        audit_log: s.audit_log,
        next_audit_log_id: restored_audit_id(s.next_audit_log_id),
    }
}

/// The contact `c`, owned by `admin` if it had no owner.
pub open spec fn owned_contact(c: Contact, admin: Principal) -> Contact {
    if c.owner_id is None {
        Contact { owner_id: Some(admin), ..c }
    } else {
        c
    }
}

/// The deal `d`, owned by `admin` if it had no owner, and created by
/// `admin` if it had no creator.
pub open spec fn owned_deal(d: Deal, admin: Principal) -> Deal {
    Deal {
        owner_id: if d.owner_id is None {
            Some(admin)
        } else {
            d.owner_id
        },
        created_by: if d.created_by is None {
            Some(admin)
        } else {
            d.created_by
        },
        ..d
    }
}

impl StateView {
    /// The store after the records without an owner have been given to the
    /// first admin. Without an admin nothing changes.
    pub open spec fn migrated(self) -> StateView {
        if self.admins.len() == 0 {
            self
        } else {
            let admin = self.admins[0];
            StateView {
                contacts: self.contacts.map_values(|c: Contact| owned_contact(c, admin)),
                deals: self.deals.map_values(|d: Deal| owned_deal(d, admin)),
                ..self
            }
        }
    }
}

} // verus!
