//! What holds of every store that the operations of this library have made:
//! records stand under their own numbers, the indexes point at live
//! records, and every deal has a live contact.

use vstd::prelude::*;
use crate::ordered::strictly_ascending;
use crate::principal::Principal;
use crate::seqs::{lemma_filter_distinct, lemma_filter_members};
use crate::state::StateView;
use crate::state::deals::other_deal;
use crate::state::permissions::other_than;
use crate::text::lowercase_text;
use crate::types::{
    AdminPermission, Contact, ContactId, CreateContactRequest, CreateDealRequest, Deal, DealId,
    Timestamp, Transaction,
};

verus! {

impl StateView {
    /// Every contact stands under its own number, which has been issued.
    pub open spec fn contacts_numbered(self) -> bool {
        &&& self.next_contact_id >= 1
        &&& forall|id: ContactId| #[trigger]
            self.contacts.contains_key(id) ==> 1 <= id < self.next_contact_id
                && self.contacts[id].id == id
    }

    /// Every deal stands under its own number, which has been issued.
    pub open spec fn deals_numbered(self) -> bool {
        &&& self.next_deal_id >= 1
        &&& forall|id: DealId| #[trigger]
            self.deals.contains_key(id) ==> 1 <= id < self.next_deal_id && self.deals[id].id == id
    }

    /// Every transaction stands under its own number, which has been issued.
    pub open spec fn transactions_numbered(self) -> bool {
        &&& self.next_transaction_id >= 1
        &&& forall|id: u64| #[trigger]
            self.transactions.contains_key(id) ==> 1 <= id < self.next_transaction_id
                && self.transactions[id].id == id
    }

    /// Every entry of the email index points at a live contact with that
    /// email, letter case aside.
    pub open spec fn email_index_sound(self) -> bool {
        forall|e: Seq<char>| #[trigger]
            self.contacts_by_email.contains_key(e) ==> self.contacts.contains_key(
                self.contacts_by_email[e],
            ) && lowercase_text(self.contacts[self.contacts_by_email[e]].email@) == e
    }

    /// Every entry of the index of user references points at a live contact
    /// with that reference.
    pub open spec fn user_index_sound(self) -> bool {
        forall|u: Seq<char>| #[trigger]
            self.contacts_by_user.contains_key(u) ==> self.contacts.contains_key(
                self.contacts_by_user[u],
            ) && (self.contacts[self.contacts_by_user[u]].user_id matches Some(s) && s@ == u)
    }

    /// Every number in a contact's list of deals is that of a live deal with
    /// that contact, and every list ascends.
    pub open spec fn deal_lists_sound(self) -> bool {
        &&& forall|c: ContactId, i: int|
            self.deals_by_contact.contains_key(c) && 0 <= i < self.deals_by_contact[c].len()
                ==> self.deals.contains_key(#[trigger] self.deals_by_contact[c][i])
                && self.deals[self.deals_by_contact[c][i]].contact_id == c
        &&& forall|c: ContactId| #[trigger]
            self.deals_by_contact.contains_key(c) ==> strictly_ascending(self.deals_by_contact[c])
    }

    /// Every deal stands in the list of its contact's deals.
    pub open spec fn deals_listed(self) -> bool {
        forall|d: DealId| #[trigger]
            self.deals.contains_key(d) ==> self.deals_by_contact.contains_key(
                self.deals[d].contact_id,
            ) && self.deals_by_contact[self.deals[d].contact_id].contains(d)
    }

    /// The contact of every deal is alive.
    pub open spec fn deals_have_contacts(self) -> bool {
        forall|d: DealId| #[trigger]
            self.deals.contains_key(d) ==> self.contacts.contains_key(self.deals[d].contact_id)
    }

    /// No right is granted twice to one identity.
    pub open spec fn grants_distinct(self) -> bool {
        forall|p: Principal| #[trigger]
            self.admin_permissions.contains_key(p) ==> self.admin_permissions[p].no_duplicates()
    }

    /// What holds of every store that the operations of this library have
    /// made from the empty store.
    pub open spec fn consistent(self) -> bool {
        &&& self.contacts_numbered()
        &&& self.deals_numbered()
        &&& self.transactions_numbered()
        &&& self.email_index_sound()
        &&& self.user_index_sound()
        &&& self.deal_lists_sound()
        &&& self.deals_listed()
        &&& self.deals_have_contacts()
        &&& self.flags_keyed()
        &&& self.grants_distinct()
        &&& self.next_audit_log_id >= 1
    }

    /// Every contact is found under its email and under its user reference:
    /// so it is as long as no two contacts have shared an email or a
    /// reference.
    pub open spec fn contacts_indexed(self) -> bool {
        forall|id: ContactId| #[trigger]
            self.contacts.contains_key(id) ==> {
                &&& self.contacts_by_email.contains_key(lowercase_text(self.contacts[id].email@))
                &&& self.contacts_by_email[lowercase_text(self.contacts[id].email@)] == id
                &&& self.contacts[id].user_id matches Some(u) ==> self.contacts_by_user.contains_key(
                    u@,
                ) && self.contacts_by_user[u@] == id
            }
    }

    /// No two contacts have one email, letter case aside.
    pub open spec fn emails_distinct(self) -> bool {
        forall|a: ContactId, b: ContactId|
            #![trigger self.contacts.contains_key(a), self.contacts.contains_key(b)]
            self.contacts.contains_key(a) && self.contacts.contains_key(b) && a != b
                ==> lowercase_text(self.contacts[a].email@) != lowercase_text(
                self.contacts[b].email@,
            )
    }

    /// Whether `other` holds the same records, indexes and counters.
    pub open spec fn same_records(self, other: StateView) -> bool {
        &&& self.contacts == other.contacts
        &&& self.contacts_by_email == other.contacts_by_email
        &&& self.contacts_by_user == other.contacts_by_user
        &&& self.next_contact_id == other.next_contact_id
        &&& self.deals == other.deals
        &&& self.deals_by_contact == other.deals_by_contact
        &&& self.next_deal_id == other.next_deal_id
        &&& self.transactions == other.transactions
        &&& self.next_transaction_id == other.next_transaction_id
        &&& self.feature_flags == other.feature_flags
        &&& self.admin_permissions == other.admin_permissions
    }
}

/// The empty store is consistent, and every contact of it is indexed.
pub proof fn lemma_empty_consistent()
    ensures
        StateView::empty().consistent(),
        StateView::empty().contacts_indexed(),
{
}

/// Consistency is about the records, their indexes and their counters only.
pub proof fn lemma_same_records(v: StateView, w: StateView)
    requires
        v.consistent(),
        v.same_records(w),
        w.next_audit_log_id >= 1,
    ensures
        w.consistent(),
        v.contacts_indexed() ==> w.contacts_indexed(),
{
}

/// Granting a right keeps the store consistent: a right that is held is
/// not granted again.
pub proof fn lemma_grant(v: StateView, p: Principal, permission: AdminPermission)
    requires
        v.consistent(),
    ensures
        v.grant(p, permission).consistent(),
        v.contacts_indexed() ==> v.grant(p, permission).contacts_indexed(),
{
    let w = v.grant(p, permission);
    assert forall|q: Principal| #[trigger] w.admin_permissions.contains_key(q) implies w.admin_permissions[q].no_duplicates() by {
        if q == p {
            if !v.granted(p).contains(permission) {
                let list = v.granted(p);
                let grown = list.push(permission);
                if v.admin_permissions.contains_key(p) {
                    assert(list.no_duplicates());
                }
                assert forall|i: int, j: int| 0 <= i < grown.len() && 0 <= j < grown.len() && i != j implies grown[i]
                    != grown[j] by {
                    if i < list.len() {
                        assert(list.contains(list[i]));
                    }
                    if j < list.len() {
                        assert(list.contains(list[j]));
                    }
                }
            } else {
                assert(v.admin_permissions.contains_key(p));
            }
        } else {
            assert(v.admin_permissions.contains_key(q));
        }
    }
}

/// Taking a right keeps the store consistent.
pub proof fn lemma_revoke(v: StateView, p: Principal, permission: AdminPermission)
    requires
        v.consistent(),
    ensures
        v.revoke(p, permission).consistent(),
        v.contacts_indexed() ==> v.revoke(p, permission).contacts_indexed(),
        !v.revoke(p, permission).granted(p).contains(permission),
{
    let w = v.revoke(p, permission);
    if v.admin_permissions.contains_key(p) {
        let list = v.admin_permissions[p];
        let kept = list.filter(other_than(permission));
        lemma_filter_distinct(list, other_than(permission));
        lemma_filter_members(list, other_than(permission));
        assert forall|q: Principal| #[trigger] w.admin_permissions.contains_key(q) implies w.admin_permissions[q].no_duplicates() by {
            if q != p {
                assert(v.admin_permissions.contains_key(q));
            }
        }
        if kept.contains(permission) {
            let i = choose|i: int| 0 <= i < kept.len() && kept[i] == permission;
            assert(other_than(permission)(kept[i]));
        }
    } else {
        assert(v.granted(p) =~= Seq::empty());
    }
}

/// Creating a contact keeps the store consistent.
pub proof fn lemma_create_contact(
    v: StateView,
    request: CreateContactRequest,
    caller: Principal,
    now: Timestamp,
)
    requires
        v.consistent(),
        v.next_contact_id < u64::MAX,
    ensures
        v.with_contact(v.new_contact(request, caller, now)).consistent(),
        v.with_contact(v.new_contact(request, caller, now)).contact(v.next_contact_id) == Some(
            v.new_contact(request, caller, now),
        ),
        v.with_contact(v.new_contact(request, caller, now)).contact_by_email(request.email@)
            == Some(v.new_contact(request, caller, now)),
{
    let c = v.new_contact(request, caller, now);
    let w = v.with_contact(c);
    assert(!v.contacts.contains_key(c.id));
    assert forall|e: Seq<char>| #[trigger]
        w.contacts_by_email.contains_key(e) implies w.contacts.contains_key(
        w.contacts_by_email[e],
    ) && lowercase_text(w.contacts[w.contacts_by_email[e]].email@) == e by {
        if e != lowercase_text(c.email@) {
            assert(v.contacts_by_email.contains_key(e));
        }
    }
    assert forall|u: Seq<char>| #[trigger]
        w.contacts_by_user.contains_key(u) implies w.contacts.contains_key(
        w.contacts_by_user[u],
    ) && (w.contacts[w.contacts_by_user[u]].user_id matches Some(s) && s@ == u) by {
        if !(c.user_id matches Some(s) && s@ == u) {
            assert(v.contacts_by_user.contains_key(u));
        }
    }
    assert forall|d: DealId| #[trigger] w.deals.contains_key(d) implies w.contacts.contains_key(
        w.deals[d].contact_id,
    ) by {
        assert(v.deals.contains_key(d));
    }
}

/// Creating a contact whose email and user reference are new keeps every
/// contact indexed.
pub proof fn lemma_create_contact_indexed(
    v: StateView,
    request: CreateContactRequest,
    caller: Principal,
    now: Timestamp,
)
    requires
        v.consistent(),
        v.contacts_indexed(),
        v.next_contact_id < u64::MAX,
        v.is_new_to_indexes(request),
    ensures
        v.with_contact(v.new_contact(request, caller, now)).contacts_indexed(),
{
    let c = v.new_contact(request, caller, now);
    let w = v.with_contact(c);
    assert forall|id: ContactId| #[trigger] w.contacts.contains_key(id) implies {
        &&& w.contacts_by_email.contains_key(lowercase_text(w.contacts[id].email@))
        &&& w.contacts_by_email[lowercase_text(w.contacts[id].email@)] == id
        &&& w.contacts[id].user_id matches Some(u) ==> w.contacts_by_user.contains_key(u@)
            && w.contacts_by_user[u@] == id
    } by {
        if id != c.id {
            assert(v.contacts.contains_key(id));
        }
    }
}

/// Changing a contact, but not its number, its email or its user reference,
/// keeps the store consistent and every contact indexed.
pub proof fn lemma_update_contact(v: StateView, id: ContactId, changed: Contact)
    requires
        v.consistent(),
        v.contacts.contains_key(id),
        changed.id == id,
        changed.email == v.contacts[id].email,
        changed.user_id == v.contacts[id].user_id,
    ensures
        (StateView { contacts: v.contacts.insert(id, changed), ..v }).consistent(),
        v.contacts_indexed() ==> (StateView {
            contacts: v.contacts.insert(id, changed),
            ..v
        }).contacts_indexed(),
{
    let w = StateView { contacts: v.contacts.insert(id, changed), ..v };
    assert forall|e: Seq<char>| #[trigger]
        w.contacts_by_email.contains_key(e) implies w.contacts.contains_key(
        w.contacts_by_email[e],
    ) && lowercase_text(w.contacts[w.contacts_by_email[e]].email@) == e by {
        assert(v.contacts_by_email.contains_key(e));
    }
    assert forall|u: Seq<char>| #[trigger]
        w.contacts_by_user.contains_key(u) implies w.contacts.contains_key(
        w.contacts_by_user[u],
    ) && (w.contacts[w.contacts_by_user[u]].user_id matches Some(s) && s@ == u) by {
        assert(v.contacts_by_user.contains_key(u));
    }
    assert forall|d: DealId| #[trigger] w.deals.contains_key(d) implies w.contacts.contains_key(
        w.deals[d].contact_id,
    ) by {
        assert(v.deals.contains_key(d));
    }
    if v.contacts_indexed() {
        assert forall|k: ContactId| #[trigger] w.contacts.contains_key(k) implies {
            &&& w.contacts_by_email.contains_key(lowercase_text(w.contacts[k].email@))
            &&& w.contacts_by_email[lowercase_text(w.contacts[k].email@)] == k
            &&& w.contacts[k].user_id matches Some(u) ==> w.contacts_by_user.contains_key(u@)
                && w.contacts_by_user[u@] == k
        } by {
            assert(v.contacts.contains_key(k));
        }
    }
}

/// Deleting a contact keeps the store consistent and every contact indexed;
/// no deal with that contact is left, and the contact has no list of deals
/// any more.
pub proof fn lemma_delete_contact(v: StateView, id: ContactId)
    requires
        v.consistent(),
        v.contacts.contains_key(id),
    ensures
        v.without_contact(id).consistent(),
        v.contacts_indexed() ==> v.without_contact(id).contacts_indexed(),
        !v.without_contact(id).contacts.contains_key(id),
        !v.without_contact(id).deals_by_contact.contains_key(id),
        forall|d: DealId| #[trigger]
            v.without_contact(id).deals.contains_key(d) ==> v.deals.contains_key(d) && v.deals[d]
                == v.without_contact(id).deals[d] && v.deals[d].contact_id != id,
        forall|d: DealId|
            v.deals.contains_key(d) && v.deals[d].contact_id == id ==> !(#[trigger] v.without_contact(
                id,
            ).deals.contains_key(d)),
{
    let w = v.without_contact(id);
    let c = v.contacts[id];
    let gone = v.deals_of(id).to_set();
    assert forall|d: DealId| #[trigger] w.deals.contains_key(d) implies v.deals.contains_key(d)
        && v.deals[d] == w.deals[d] && v.deals[d].contact_id != id by {
        assert(v.deals.contains_key(d));
        assert(!gone.contains(d));
        if v.deals[d].contact_id == id {
            assert(v.deals_by_contact[id].contains(d));
        }
    }
    assert forall|d: DealId| v.deals.contains_key(d) && v.deals[d].contact_id == id implies !(
    #[trigger] w.deals.contains_key(d)) by {
        assert(v.deals_by_contact[id].contains(d));
        assert(gone.contains(d));
    }
    assert forall|e: Seq<char>| #[trigger]
        w.contacts_by_email.contains_key(e) implies w.contacts.contains_key(
        w.contacts_by_email[e],
    ) && lowercase_text(w.contacts[w.contacts_by_email[e]].email@) == e by {
        assert(v.contacts_by_email.contains_key(e));
    }
    assert forall|u: Seq<char>| #[trigger]
        w.contacts_by_user.contains_key(u) implies w.contacts.contains_key(
        w.contacts_by_user[u],
    ) && (w.contacts[w.contacts_by_user[u]].user_id matches Some(s) && s@ == u) by {
        assert(v.contacts_by_user.contains_key(u));
    }
    assert forall|k: ContactId, i: int|
        w.deals_by_contact.contains_key(k) && 0 <= i < w.deals_by_contact[k].len() implies w.deals.contains_key(
        #[trigger] w.deals_by_contact[k][i],
    ) && w.deals[w.deals_by_contact[k][i]].contact_id == k by {
        let d = v.deals_by_contact[k][i];
        assert(v.deals.contains_key(d) && v.deals[d].contact_id == k);
        if gone.contains(d) {
            let j = choose|j: int| 0 <= j < v.deals_of(id).len() && v.deals_of(id)[j] == d;
            assert(v.deals[v.deals_by_contact[id][j]].contact_id == id);
        }
    }
    assert forall|k: ContactId| #[trigger]
        w.deals_by_contact.contains_key(k) implies strictly_ascending(
        w.deals_by_contact[k],
    ) by {
        assert(v.deals_by_contact.contains_key(k));
    }
    assert forall|d: DealId| #[trigger]
        w.deals.contains_key(d) implies w.deals_by_contact.contains_key(
        w.deals[d].contact_id,
    ) && w.deals_by_contact[w.deals[d].contact_id].contains(d) by {
        assert(v.deals.contains_key(d));
    }
    assert forall|d: DealId| #[trigger] w.deals.contains_key(d) implies w.contacts.contains_key(
        w.deals[d].contact_id,
    ) by {
        assert(v.deals.contains_key(d));
    }
    if v.contacts_indexed() {
        assert forall|k: ContactId| #[trigger] w.contacts.contains_key(k) implies {
            &&& w.contacts_by_email.contains_key(lowercase_text(w.contacts[k].email@))
            &&& w.contacts_by_email[lowercase_text(w.contacts[k].email@)] == k
            &&& w.contacts[k].user_id matches Some(u) ==> w.contacts_by_user.contains_key(u@)
                && w.contacts_by_user[u@] == k
        } by {
            assert(v.contacts.contains_key(k));
            assert(v.contacts.contains_key(id));
        }
    }
}

/// Creating a deal with a live contact keeps the store consistent.
pub proof fn lemma_create_deal(
    v: StateView,
    request: CreateDealRequest,
    caller: Principal,
    now: Timestamp,
)
    requires
        v.consistent(),
        v.next_deal_id < u64::MAX,
        v.contacts.contains_key(request.contact_id),
    ensures
        v.with_deal(v.new_deal(request, caller, now)).consistent(),
        v.contacts_indexed() ==> v.with_deal(v.new_deal(request, caller, now)).contacts_indexed(),
{
    let d = v.new_deal(request, caller, now);
    let w = v.with_deal(d);
    let c = d.contact_id;
    let list = v.deals_of(c);
    assert(!v.deals.contains_key(d.id));
    assert forall|i: int| 0 <= i < list.len() implies v.deals.contains_key(#[trigger] list[i])
        && v.deals[list[i]].contact_id == c && list[i] < d.id by {
        assert(v.deals.contains_key(v.deals_by_contact[c][i]));
    }
    assert forall|k: ContactId, i: int|
        w.deals_by_contact.contains_key(k) && 0 <= i < w.deals_by_contact[k].len() implies w.deals.contains_key(
        #[trigger] w.deals_by_contact[k][i],
    ) && w.deals[w.deals_by_contact[k][i]].contact_id == k by {
        if k == c {
            if i < list.len() {
                assert(w.deals_by_contact[k][i] == list[i]);
            }
        } else {
            assert(v.deals.contains_key(v.deals_by_contact[k][i]));
        }
    }
    assert forall|k: ContactId| #[trigger]
        w.deals_by_contact.contains_key(k) implies strictly_ascending(
        w.deals_by_contact[k],
    ) by {
        if k == c {
            let grown = list.push(d.id);
            if v.deals_by_contact.contains_key(c) {
                assert(strictly_ascending(list));
            }
            assert forall|a: int, b: int| 0 <= a < b < grown.len() implies grown[a] < grown[b] by {
                assert(grown[a] == list[a]);
                if b < list.len() {
                    assert(grown[b] == list[b]);
                }
            }
        } else {
            assert(v.deals_by_contact.contains_key(k));
        }
    }
    assert forall|x: DealId| #[trigger]
        w.deals.contains_key(x) implies w.deals_by_contact.contains_key(
        w.deals[x].contact_id,
    ) && w.deals_by_contact[w.deals[x].contact_id].contains(x) by {
        if x == d.id {
            assert(list.push(d.id)[list.len() as int] == x);
        } else {
            assert(v.deals.contains_key(x));
            if v.deals[x].contact_id == c {
                let j = choose|j: int| 0 <= j < list.len() && list[j] == x;
                assert(list.push(d.id)[j] == x);
            }
        }
    }
    assert forall|x: DealId| #[trigger] w.deals.contains_key(x) implies w.contacts.contains_key(
        w.deals[x].contact_id,
    ) by {
        if x != d.id {
            assert(v.deals.contains_key(x));
        }
    }
}

/// Changing a deal, but neither its number nor its contact, keeps the store
/// consistent.
pub proof fn lemma_update_deal(v: StateView, id: DealId, changed: Deal)
    requires
        v.consistent(),
        v.deals.contains_key(id),
        changed.id == id,
        changed.contact_id == v.deals[id].contact_id,
    ensures
        (StateView { deals: v.deals.insert(id, changed), ..v }).consistent(),
        v.contacts_indexed() ==> (StateView {
            deals: v.deals.insert(id, changed),
            ..v
        }).contacts_indexed(),
{
    let w = StateView { deals: v.deals.insert(id, changed), ..v };
    assert forall|k: ContactId, i: int|
        w.deals_by_contact.contains_key(k) && 0 <= i < w.deals_by_contact[k].len() implies w.deals.contains_key(
        #[trigger] w.deals_by_contact[k][i],
    ) && w.deals[w.deals_by_contact[k][i]].contact_id == k by {
        assert(v.deals.contains_key(v.deals_by_contact[k][i]));
    }
    assert forall|x: DealId| #[trigger]
        w.deals.contains_key(x) implies w.deals_by_contact.contains_key(
        w.deals[x].contact_id,
    ) && w.deals_by_contact[w.deals[x].contact_id].contains(x) by {
        assert(v.deals.contains_key(x));
    }
    assert forall|x: DealId| #[trigger] w.deals.contains_key(x) implies w.contacts.contains_key(
        w.deals[x].contact_id,
    ) by {
        assert(v.deals.contains_key(x));
    }
}

/// Deleting a deal keeps the store consistent.
pub proof fn lemma_delete_deal(v: StateView, id: DealId)
    requires
        v.consistent(),
        v.deals.contains_key(id),
    ensures
        v.without_deal(id).consistent(),
        v.contacts_indexed() ==> v.without_deal(id).contacts_indexed(),
{
    let w = v.without_deal(id);
    let c = v.deals[id].contact_id;
    let list = v.deals_by_contact[c];
    let kept = list.filter(other_deal(id));
    lemma_filter_members(list, other_deal(id));
    lemma_filter_ascends(list, id);
    assert forall|k: ContactId, i: int|
        w.deals_by_contact.contains_key(k) && 0 <= i < w.deals_by_contact[k].len() implies w.deals.contains_key(
        #[trigger] w.deals_by_contact[k][i],
    ) && w.deals[w.deals_by_contact[k][i]].contact_id == k by {
        if k == c {
            let x = kept[i];
            assert(list.contains(x));
            let j = choose|j: int| 0 <= j < list.len() && list[j] == x;
            assert(v.deals.contains_key(v.deals_by_contact[c][j]));
        } else {
            assert(v.deals.contains_key(v.deals_by_contact[k][i]));
        }
    }
    assert forall|k: ContactId| #[trigger]
        w.deals_by_contact.contains_key(k) implies strictly_ascending(
        w.deals_by_contact[k],
    ) by {
        assert(v.deals_by_contact.contains_key(k));
    }
    assert forall|x: DealId| #[trigger]
        w.deals.contains_key(x) implies w.deals_by_contact.contains_key(
        w.deals[x].contact_id,
    ) && w.deals_by_contact[w.deals[x].contact_id].contains(x) by {
        assert(v.deals.contains_key(x));
        if v.deals[x].contact_id == c {
            let j = choose|j: int| 0 <= j < list.len() && list[j] == x;
            assert(other_deal(id)(list[j]));
            assert(kept.contains(list[j]));
        }
    }
    assert forall|x: DealId| #[trigger] w.deals.contains_key(x) implies w.contacts.contains_key(
        w.deals[x].contact_id,
    ) by {
        assert(v.deals.contains_key(x));
    }
}

/// Striking a number from an ascending list leaves an ascending list.
pub proof fn lemma_filter_ascends(list: Seq<u64>, id: u64)
    requires
        strictly_ascending(list),
    ensures
        strictly_ascending(list.filter(other_deal(id))),
    decreases list.len(),
{
    reveal(Seq::filter);
    if list.len() > 0 {
        let rest = list.drop_last();
        assert(strictly_ascending(rest)) by {
            assert forall|i: int, j: int| 0 <= i < j < rest.len() implies rest[i] < rest[j] by {
                assert(rest[i] == list[i]);
                assert(rest[j] == list[j]);
            }
        }
        lemma_filter_ascends(rest, id);
        lemma_filter_members(rest, other_deal(id));
        let kept = rest.filter(other_deal(id));
        if other_deal(id)(list.last()) {
            let grown = kept.push(list.last());
            assert forall|i: int, j: int| 0 <= i < j < grown.len() implies grown[i] < grown[j] by {
                assert(grown[i] == kept[i]);
                if j < kept.len() {
                    assert(grown[j] == kept[j]);
                } else {
                    assert(rest.contains(kept[i]));
                    let p = choose|p: int| 0 <= p < rest.len() && rest[p] == kept[i];
                    assert(list[p] < list[list.len() - 1]);
                }
            }
        }
    }
}

/// Recording a transaction keeps the store consistent.
pub proof fn lemma_create_transaction(v: StateView, t: Transaction)
    requires
        v.consistent(),
        v.next_transaction_id < u64::MAX,
        t.id == v.next_transaction_id,
    ensures
        (StateView {
            transactions: v.transactions.insert(t.id, t),
            next_transaction_id: (t.id + 1) as u64,
            ..v
        }).consistent(),
{
    let w = StateView {
        transactions: v.transactions.insert(t.id, t),
        next_transaction_id: (t.id + 1) as u64,
        ..v
    };
    assert forall|id: u64| #[trigger] w.transactions.contains_key(id) implies 1 <= id
        < w.next_transaction_id && w.transactions[id].id == id by {
        if id != t.id {
            assert(v.transactions.contains_key(id));
        }
    }
}

/// Giving the records without an owner to the first admin keeps the store
/// consistent and every contact indexed; and doing it again changes nothing.
pub proof fn lemma_migrated(v: StateView)
    requires
        v.consistent(),
    ensures
        v.migrated().consistent(),
        v.contacts_indexed() ==> v.migrated().contacts_indexed(),
        v.migrated().migrated() == v.migrated(),
{
    let w = v.migrated();
    if v.admins.len() > 0 {
        let admin = v.admins[0];
        assert forall|id: ContactId| #[trigger] w.contacts.contains_key(id) implies 1 <= id
            < w.next_contact_id && w.contacts[id].id == id by {
            assert(v.contacts.contains_key(id));
        }
        assert forall|id: DealId| #[trigger] w.deals.contains_key(id) implies 1 <= id
            < w.next_deal_id && w.deals[id].id == id by {
            assert(v.deals.contains_key(id));
        }
        assert forall|e: Seq<char>| #[trigger]
            w.contacts_by_email.contains_key(e) implies w.contacts.contains_key(
            w.contacts_by_email[e],
        ) && lowercase_text(w.contacts[w.contacts_by_email[e]].email@) == e by {
            assert(v.contacts_by_email.contains_key(e));
        }
        assert forall|u: Seq<char>| #[trigger]
            w.contacts_by_user.contains_key(u) implies w.contacts.contains_key(
            w.contacts_by_user[u],
        ) && (w.contacts[w.contacts_by_user[u]].user_id matches Some(s) && s@ == u) by {
            assert(v.contacts_by_user.contains_key(u));
        }
        assert forall|k: ContactId, i: int|
            w.deals_by_contact.contains_key(k) && 0 <= i < w.deals_by_contact[k].len() implies w.deals.contains_key(
            #[trigger] w.deals_by_contact[k][i],
        ) && w.deals[w.deals_by_contact[k][i]].contact_id == k by {
            assert(v.deals.contains_key(v.deals_by_contact[k][i]));
        }
        assert forall|x: DealId| #[trigger]
            w.deals.contains_key(x) implies w.deals_by_contact.contains_key(
            w.deals[x].contact_id,
        ) && w.deals_by_contact[w.deals[x].contact_id].contains(x) by {
            assert(v.deals.contains_key(x));
        }
        assert forall|x: DealId| #[trigger] w.deals.contains_key(x) implies w.contacts.contains_key(
            w.deals[x].contact_id,
        ) by {
            assert(v.deals.contains_key(x));
        }
        if v.contacts_indexed() {
            assert forall|k: ContactId| #[trigger] w.contacts.contains_key(k) implies {
                &&& w.contacts_by_email.contains_key(lowercase_text(w.contacts[k].email@))
                &&& w.contacts_by_email[lowercase_text(w.contacts[k].email@)] == k
                &&& w.contacts[k].user_id matches Some(u) ==> w.contacts_by_user.contains_key(u@)
                    && w.contacts_by_user[u@] == k
            } by {
                assert(v.contacts.contains_key(k));
            }
        }
        assert(w.migrated().contacts =~= w.contacts);
        assert(w.migrated().deals =~= w.deals);
    }
}

/// A contact that is indexed is found under its number, under its email,
/// letter case aside, and under its user reference, and every way leads to
/// the same record. The email index holds the contact's number under its
/// email in lower case; a lookup by the email in lower case finds the
/// contact wherever putting that email in lower case again changes nothing.
pub proof fn lemma_lookups_agree(v: StateView, id: ContactId)
    requires
        v.contacts_indexed(),
        v.contacts.contains_key(id),
    ensures
        v.contact(id) == Some(v.contacts[id]),
        v.contact_by_email(v.contacts[id].email@) == v.contact(id),
        v.contacts[id].user_id matches Some(u) ==> v.contact_by_user(u@) == v.contact(id),
        v.contacts_by_email.contains_key(lowercase_text(v.contacts[id].email@)),
        v.contacts_by_email[lowercase_text(v.contacts[id].email@)] == id,
        lowercase_text(lowercase_text(v.contacts[id].email@)) == lowercase_text(
            v.contacts[id].email@,
        ) ==> v.contact_by_email(lowercase_text(v.contacts[id].email@)) == v.contact(id),
{
}

/// Where every contact is indexed, no two contacts have one email.
pub proof fn lemma_indexed_emails_distinct(v: StateView)
    requires
        v.contacts_indexed(),
    ensures
        v.emails_distinct(),
{
}

/// What the deletion of a contact does.
///
/// The contact is gone from the contacts and is no longer found under its
/// email, and it has no list of deals any more. Where every deal stands in
/// the list of its contact's deals, no deal with the contact is left.
/// Every other contact, the list of deals of every other contact and every
/// other entry of the email index are as before; where no two contacts have
/// one email and every entry of the email index points at a contact with
/// that email, every other contact is found under its email as before. Every
/// deal that is left is as before; and where every list of deals holds
/// deals of its own contact only, every deal of another contact is left.
pub proof fn lemma_delete_contact_removes(v: StateView, id: ContactId)
    requires
        v.contacts.contains_key(id),
    ensures
        !v.without_contact(id).contacts.contains_key(id),
        v.without_contact(id).contact_by_email(v.contacts[id].email@) is None,
        !v.without_contact(id).deals_by_contact.contains_key(id),
        forall|d: DealId| #[trigger]
            v.without_contact(id).deals.contains_key(d) ==> v.deals.contains_key(d) && v.deals[d]
                == v.without_contact(id).deals[d],
        v.deals_listed() ==> forall|d: DealId| #[trigger]
            v.without_contact(id).deals.contains_key(d) ==> v.without_contact(id).deals[d].contact_id
                != id,
        forall|k: ContactId| k != id ==> #[trigger] v.without_contact(id).contact(k) == v.contact(k),
        forall|k: ContactId| k != id ==> #[trigger] v.without_contact(id).deals_of(k) == v.deals_of(k),
        forall|e: Seq<char>|
            e != lowercase_text(v.contacts[id].email@) ==> (#[trigger] v.without_contact(
                id,
            ).contacts_by_email.contains_key(e)) == v.contacts_by_email.contains_key(e) && (
            v.contacts_by_email.contains_key(e) ==> v.without_contact(id).contacts_by_email[e]
                == v.contacts_by_email[e]),
        v.emails_distinct() && v.email_index_sound() ==> forall|k: ContactId|
            k != id && v.contacts.contains_key(k) ==> #[trigger] v.without_contact(
                id,
            ).contact_by_email(v.contacts[k].email@) == v.contact_by_email(v.contacts[k].email@),
        v.deal_lists_sound() ==> forall|d: DealId|
            v.deals.contains_key(d) && v.deals[d].contact_id != id ==> #[trigger] v.without_contact(
                id,
            ).deals.contains_key(d) && v.without_contact(id).deals[d] == v.deals[d],
{
    let w = v.without_contact(id);
    let gone = v.deals_of(id).to_set();
    if v.deals_listed() {
        assert forall|d: DealId| #[trigger] w.deals.contains_key(d) implies w.deals[d].contact_id
            != id by {
            assert(v.deals.contains_key(d));
            assert(!gone.contains(d));
            if v.deals[d].contact_id == id {
                assert(v.deals_by_contact[id].contains(d));
            }
        }
    }
    if v.emails_distinct() && v.email_index_sound() {
        assert forall|k: ContactId| k != id && v.contacts.contains_key(k) implies #[trigger] w.contact_by_email(
            v.contacts[k].email@,
        ) == v.contact_by_email(v.contacts[k].email@) by {
            assert(v.contacts.contains_key(id));
            let e = lowercase_text(v.contacts[k].email@);
            assert(e != lowercase_text(v.contacts[id].email@));
            if v.contacts_by_email.contains_key(e) {
                assert(w.contacts_by_email[e] == v.contacts_by_email[e]);
            }
        }
    }
    if v.deal_lists_sound() {
        assert forall|d: DealId|
            v.deals.contains_key(d) && v.deals[d].contact_id != id implies #[trigger] w.deals.contains_key(
            d,
        ) && w.deals[d] == v.deals[d] by {
            if gone.contains(d) {
                let j = choose|j: int| 0 <= j < v.deals_of(id).len() && v.deals_of(id)[j] == d;
                assert(v.deals[v.deals_by_contact[id][j]].contact_id == id);
            }
        }
    }
}

} // verus!
