//! Taking a snapshot, restoring from one, and giving old records an owner.

use vstd::prelude::*;
use std::collections::BTreeMap;
use crate::copies::copy_list;
use crate::invariants::lemma_migrated;
use crate::ordered::{
    ascending_key_list, ascending_keys, ascending_pairs, lemma_map_of_step, lists_ascending,
    map_from, map_of, pairs_of,
};
use crate::principal::Principal;
use crate::roundtrip::{
    lemma_restore_finds_contacts, lemma_restore_keeps_indexes, lemma_restore_keeps_records,
};
use crate::sorted_map::{position, SortKey, SortedMap};
use crate::state::{State, StateView};
use crate::state::snapshot::{
    deal_index, email_index, flag_pair, grant_pair, is_snapshot_of, owned_contact, owned_deal,
    restored, role_pair, user_index, StableState,
};
use crate::text::{lowercase, text_before};
use crate::types::{AdminPermission, Contact, ContactId, Deal, DealId, FeatureFlag};

verus! {

fn roles_from(list: &Vec<(String, Principal)>) -> (r: SortedMap<String, Principal>)
    ensures
        r.wf(),
        r@ == map_of(list@.map_values(|e: (String, Principal)| role_pair(e))),
{
    let ghost pairs = list@.map_values(|e: (String, Principal)| role_pair(e));
    let mut r: SortedMap<String, Principal> = SortedMap::new();
    let mut i: usize = 0;
    proof {
        assert(pairs.take(0) =~= Seq::empty());
    }
    while i < list.len()
        invariant
            pairs == list@.map_values(|e: (String, Principal)| role_pair(e)),
            i <= list@.len(),
            r.wf(),
            r@ == map_of(pairs.take(i as int)),
        decreases list@.len() - i,
    {
        proof {
            lemma_map_of_step(pairs, i as int);
        }
        r.insert(list[i].0.clone(), list[i].1);
        i += 1;
    }
    proof {
        assert(pairs.take(pairs.len() as int) =~= pairs);
    }
    r
}

fn grants_from(list: &Vec<(Principal, Vec<AdminPermission>)>) -> (r: SortedMap<
    Principal,
    Vec<AdminPermission>,
>)
    ensures
        r.wf(),
        r@.map_values(|l: Vec<AdminPermission>| l@) == map_of(
            list@.map_values(|e: (Principal, Vec<AdminPermission>)| grant_pair(e)),
        ),
{
    let ghost pairs = list@.map_values(|e: (Principal, Vec<AdminPermission>)| grant_pair(e));
    let mut r: SortedMap<Principal, Vec<AdminPermission>> = SortedMap::new();
    let mut i: usize = 0;
    proof {
        assert(pairs.take(0) =~= Seq::empty());
        assert(r@.map_values(|l: Vec<AdminPermission>| l@) =~= Map::empty());
    }
    while i < list.len()
        invariant
            pairs == list@.map_values(|e: (Principal, Vec<AdminPermission>)| grant_pair(e)),
            i <= list@.len(),
            r.wf(),
            r@.map_values(|l: Vec<AdminPermission>| l@) == map_of(pairs.take(i as int)),
        decreases list@.len() - i,
    {
        let ghost before = r@;
        let rights = copy_list(&list[i].1);
        proof {
            lemma_map_of_step(pairs, i as int);
        }
        r.insert(list[i].0, rights);
        proof {
            assert(r@.map_values(|l: Vec<AdminPermission>| l@) =~= before.map_values(
                |l: Vec<AdminPermission>| l@,
            ).insert(list@[i as int].0, rights@));
        }
        i += 1;
    }
    proof {
        assert(pairs.take(pairs.len() as int) =~= pairs);
    }
    r
}

fn flags_from(list: &Vec<(String, FeatureFlag)>) -> (r: SortedMap<String, FeatureFlag>)
    ensures
        r.wf(),
        r@.map_values(|f: FeatureFlag| f@) == map_of(
            list@.map_values(|e: (String, FeatureFlag)| flag_pair(e)),
        ),
{
    let ghost pairs = list@.map_values(|e: (String, FeatureFlag)| flag_pair(e));
    let mut r: SortedMap<String, FeatureFlag> = SortedMap::new();
    let mut i: usize = 0;
    proof {
        assert(pairs.take(0) =~= Seq::empty());
        assert(r@.map_values(|f: FeatureFlag| f@) =~= Map::empty());
    }
    while i < list.len()
        invariant
            pairs == list@.map_values(|e: (String, FeatureFlag)| flag_pair(e)),
            i <= list@.len(),
            r.wf(),
            r@.map_values(|f: FeatureFlag| f@) == map_of(pairs.take(i as int)),
        decreases list@.len() - i,
    {
        let ghost before = r@;
        let flag = list[i].1.clone();
        proof {
            lemma_map_of_step(pairs, i as int);
        }
        r.insert(list[i].0.clone(), flag);
        proof {
            assert(r@.map_values(|f: FeatureFlag| f@) =~= before.map_values(|f: FeatureFlag| f@).insert(
                list@[i as int].0@,
                flag@,
            ));
        }
        i += 1;
    }
    proof {
        assert(pairs.take(pairs.len() as int) =~= pairs);
    }
    r
}

/// The email index and the index of user references, built from the contacts.
fn contact_indexes(contacts: &BTreeMap<ContactId, Contact>) -> (r: (
    SortedMap<String, ContactId>,
    SortedMap<String, ContactId>,
))
    ensures
        r.0.wf(),
        r.1.wf(),
        r.0@ == email_index(ascending_pairs(contacts@)),
        r.1@ == user_index(ascending_pairs(contacts@)),
{
    let ghost pairs = ascending_pairs(contacts@);
    let keys = ascending_key_list(contacts);
    let mut by_email: SortedMap<String, ContactId> = SortedMap::new();
    let mut by_user: SortedMap<String, ContactId> = SortedMap::new();
    let mut i: usize = 0;
    proof {
        assert(pairs.take(0) =~= Seq::empty());
    }
    while i < keys.len()
        invariant
            lists_ascending(keys@, contacts@.dom()),
            keys@ == ascending_keys(contacts@.dom()),
            pairs == ascending_pairs(contacts@),
            i <= keys@.len(),
            by_email.wf(),
            by_user.wf(),
            by_email@ == email_index(pairs.take(i as int)),
            by_user@ == user_index(pairs.take(i as int)),
        decreases keys@.len() - i,
    {
        let key: u64 = keys[i];
        proof {
            assert(keys@.contains(key));
            assert(pairs.take(i + 1).drop_last() =~= pairs.take(i as int));
            assert(pairs.take(i + 1).last() == pairs[i as int]);
        }
        match contacts.get(&key) {
            Some(c) => {
                by_email.insert(lowercase(c.email.as_str()), key);
                match &c.user_id {
                    Some(u) => {
                        by_user.insert(u.clone(), key);
                    },
                    None => {},
                }
            },
            None => {},
        }
        i += 1;
    }
    proof {
        assert(pairs.take(pairs.len() as int) =~= pairs);
    }
    (by_email, by_user)
}

/// The index from contacts to their deals, built from the deals.
fn deals_index(deals: &BTreeMap<DealId, Deal>) -> (r: BTreeMap<ContactId, Vec<DealId>>)
    ensures
        r@.map_values(|l: Vec<DealId>| l@) == deal_index(ascending_pairs(deals@)),
{
    let ghost pairs = ascending_pairs(deals@);
    let keys = ascending_key_list(deals);
    let mut index: BTreeMap<ContactId, Vec<DealId>> = BTreeMap::new();
    let mut i: usize = 0;
    proof {
        assert(pairs.take(0) =~= Seq::empty());
        assert(index@.map_values(|l: Vec<DealId>| l@) =~= Map::empty());
    }
    while i < keys.len()
        invariant
            lists_ascending(keys@, deals@.dom()),
            keys@ == ascending_keys(deals@.dom()),
            pairs == ascending_pairs(deals@),
            i <= keys@.len(),
            index@.map_values(|l: Vec<DealId>| l@) == deal_index(pairs.take(i as int)),
        decreases keys@.len() - i,
    {
        let key: u64 = keys[i];
        proof {
            assert(keys@.contains(key));
            assert(pairs.take(i + 1).drop_last() =~= pairs.take(i as int));
            assert(pairs.take(i + 1).last() == pairs[i as int]);
        }
        match deals.get(&key) {
            Some(d) => {
                let ghost before = index@;
                let contact: ContactId = d.contact_id;
                let mut list: Vec<DealId> = match index.remove(&contact) {
                    Some(l) => l,
                    None => Vec::new(),
                };
                list.push(key);
                index.insert(contact, list);
                proof {
                    assert(index@ =~= before.insert(contact, list));
                    assert(index@.map_values(|l: Vec<DealId>| l@) =~= before.map_values(
                        |l: Vec<DealId>| l@,
                    ).insert(contact, list@));
                }
            },
            None => {},
        }
        i += 1;
    }
    proof {
        assert(pairs.take(pairs.len() as int) =~= pairs);
    }
    index
}

impl State {
    /// The snapshot of the store.
    pub fn snapshot(&self) -> (r: StableState)
        requires
            self.wf(),
        ensures
            is_snapshot_of(r@, self@),
    {
        let mut roles: Vec<(String, Principal)> = Vec::new();
        let mut i: usize = 0;
        while i < self.authorized_canisters.len()
            invariant
                i <= self.authorized_canisters.entries().len(),
                roles@.len() == i,
                forall|j: int|
                    0 <= j < i ==> #[trigger] roles@[j] == self.authorized_canisters.entries()[j],
            decreases self.authorized_canisters.entries().len() - i,
        {
            roles.push(
                (self.authorized_canisters.key_at(i).clone(), *self.authorized_canisters.value_at(i)),
            );
            i += 1;
        }
        let mut grants: Vec<(Principal, Vec<AdminPermission>)> = Vec::new();
        let mut i: usize = 0;
        while i < self.admin_permissions.len()
            invariant
                i <= self.admin_permissions.entries().len(),
                grants@.len() == i,
                forall|j: int|
                    0 <= j < i ==> (#[trigger] grants@[j]).0 == self.admin_permissions.entries()[j].0
                        && grants@[j].1@ == self.admin_permissions.entries()[j].1@,
            decreases self.admin_permissions.entries().len() - i,
        {
            grants.push(
                (
                    *self.admin_permissions.key_at(i),
                    copy_list(self.admin_permissions.value_at(i)),
                ),
            );
            i += 1;
        }
        let mut flags: Vec<(String, FeatureFlag)> = Vec::new();
        let mut i: usize = 0;
        while i < self.feature_flags.len()
            invariant
                i <= self.feature_flags.entries().len(),
                flags@.len() == i,
                forall|j: int|
                    0 <= j < i ==> (#[trigger] flags@[j]).0 == self.feature_flags.entries()[j].0
                        && flags@[j].1@ == self.feature_flags.entries()[j].1@,
            decreases self.feature_flags.entries().len() - i,
        {
            flags.push((self.feature_flags.key_at(i).clone(), self.feature_flags.value_at(i).clone()));
            i += 1;
        }
        let r = StableState {
            controllers: copy_list(&self.controllers),
            admins: copy_list(&self.admins),
            authorized_canisters: roles,
            admin_permissions: grants,
            contacts: pairs_of(&self.contacts),
            next_contact_id: self.next_contact_id,
            deals: pairs_of(&self.deals),
            next_deal_id: self.next_deal_id,
            transactions: pairs_of(&self.transactions),
            next_transaction_id: self.next_transaction_id,
            feature_flags: flags,
            activity_log: copy_list(&self.activity_log),
            metrics_history: copy_list(&self.metrics_history),
            audit_log: copy_list(&self.audit_log),
            next_audit_log_id: self.next_audit_log_id,
        };
        proof {
            self.authorized_canisters.lemma_entries();
            self.admin_permissions.lemma_entries();
            self.feature_flags.lemma_entries();
            let re = self.authorized_canisters.entries();
            let rl = r@.authorized_canisters;
            assert forall|a: int, b: int| 0 <= a < b < rl.len() implies text_before(
                (#[trigger] rl[a]).0,
                (#[trigger] rl[b]).0,
            ) by {
                assert(String::before(re[a].0.model(), re[b].0.model()));
            }
            assert forall|j: int| 0 <= j < rl.len() implies self@.authorized_canisters.contains_key(
                (#[trigger] rl[j]).0,
            ) && self@.authorized_canisters[rl[j].0] == rl[j].1 by {
                assert(self.authorized_canisters@.contains_key(re[j].0.model()));
            }
            assert forall|k: Seq<char>| #[trigger]
                self@.authorized_canisters.contains_key(k) implies exists|i: int|
                0 <= i < rl.len() && (#[trigger] rl[i]).0 == k by {
                let p = position(re, k);
                assert(rl[p].0 == k);
            }
            let ge = self.admin_permissions.entries();
            let gl = r@.admin_permissions;
            assert(self@.admin_permissions.dom() =~= self.admin_permissions@.dom());
            assert forall|a: int, b: int|
                0 <= a < b < gl.len() implies (#[trigger] gl[a]).0.comes_before(
                (#[trigger] gl[b]).0,
            ) by {
                assert(Principal::before(ge[a].0.model(), ge[b].0.model()));
            }
            assert forall|j: int| 0 <= j < gl.len() implies self@.admin_permissions.contains_key(
                (#[trigger] gl[j]).0,
            ) && self@.admin_permissions[gl[j].0] == gl[j].1 by {
                assert(self.admin_permissions@.contains_key(ge[j].0.model()));
            }
            assert forall|k: Principal| #[trigger]
                self@.admin_permissions.contains_key(k) implies exists|i: int|
                0 <= i < gl.len() && (#[trigger] gl[i]).0 == k by {
                assert(self.admin_permissions@.contains_key(k));
                let p = position(ge, k);
                assert(gl[p].0 == k);
            }
            let fe = self.feature_flags.entries();
            let fl = r@.feature_flags;
            assert(self@.feature_flags.dom() =~= self.feature_flags@.dom());
            assert forall|a: int, b: int| 0 <= a < b < fl.len() implies text_before(
                (#[trigger] fl[a]).0,
                (#[trigger] fl[b]).0,
            ) by {
                assert(String::before(fe[a].0.model(), fe[b].0.model()));
            }
            assert forall|j: int| 0 <= j < fl.len() implies self@.feature_flags.contains_key(
                (#[trigger] fl[j]).0,
            ) && self@.feature_flags[fl[j].0] == fl[j].1 by {
                assert(self.feature_flags@.contains_key(fe[j].0.model()));
            }
            assert forall|k: Seq<char>| #[trigger]
                self@.feature_flags.contains_key(k) implies exists|i: int|
                0 <= i < fl.len() && (#[trigger] fl[i]).0 == k by {
                assert(self.feature_flags@.contains_key(k));
                let p = position(fe, k);
                assert(fl[p].0 == k);
            }
        }
        r
    }

    /// The store that a snapshot is restored to. The indexes are built anew
    /// from the contacts and the deals; the rate limiter starts empty.
    ///
    /// Restored from the snapshot of a consistent store, the store is that
    /// store again but for the rate limiter: every record and every lookup.
    /// Restored from the snapshot of any store in which no two contacts had
    /// one email, every contact is found under its number and its email.
    pub fn restore(stable: StableState) -> (r: State)
        ensures
            r.wf(),
            r@ == restored(stable@),
            forall|v: StateView|
                #![trigger is_snapshot_of(stable@, v)]
                is_snapshot_of(stable@, v) && v.consistent() && v.contacts_indexed() ==> {
                    &&& r@.consistent()
                    &&& r@.contacts_indexed()
                    &&& r@.contacts == v.contacts
                    &&& r@.deals == v.deals
                    &&& r@.transactions == v.transactions
                    &&& r@.contacts_by_email == v.contacts_by_email
                    &&& r@.contacts_by_user == v.contacts_by_user
                    &&& forall|c: ContactId| r@.deals_of(c) == v.deals_of(c)
                },
            forall|v: StateView, id: ContactId|
                #![trigger is_snapshot_of(stable@, v), v.contacts.contains_key(id)]
                is_snapshot_of(stable@, v) && v.emails_distinct() && v.contacts.contains_key(id) ==> {
                    &&& r@.contacts == v.contacts
                    &&& r@.contact(id) == Some(v.contacts[id])
                    &&& r@.contact_by_email(v.contacts[id].email@) == Some(v.contacts[id])
                },
    {
        proof {
            assert forall|v: StateView, id: ContactId|
                #![trigger is_snapshot_of(stable@, v), v.contacts.contains_key(id)]
                is_snapshot_of(stable@, v) && v.emails_distinct() && v.contacts.contains_key(
                    id,
                ) implies {
                &&& restored(stable@).contacts == v.contacts
                &&& restored(stable@).contact(id) == Some(v.contacts[id])
                &&& restored(stable@).contact_by_email(v.contacts[id].email@) == Some(
                    v.contacts[id],
                )
            } by {
                lemma_restore_finds_contacts(v, stable@, id);
            }
            assert forall|v: StateView|
                #![trigger is_snapshot_of(stable@, v)]
                is_snapshot_of(stable@, v) && v.consistent() && v.contacts_indexed() implies {
                &&& restored(stable@).consistent()
                &&& restored(stable@).contacts_indexed()
                &&& restored(stable@).contacts == v.contacts
                &&& restored(stable@).deals == v.deals
                &&& restored(stable@).transactions == v.transactions
                &&& restored(stable@).contacts_by_email == v.contacts_by_email
                &&& restored(stable@).contacts_by_user == v.contacts_by_user
                &&& forall|c: ContactId| restored(stable@).deals_of(c) == v.deals_of(c)
            } by {
                lemma_restore_keeps_records(v, stable@);
                lemma_restore_keeps_indexes(v, stable@);
            }
        }
        let contacts = map_from(&stable.contacts);
        let deals = map_from(&stable.deals);
        let (contacts_by_email, contacts_by_user) = contact_indexes(&contacts);
        let deals_by_contact = deals_index(&deals);
        let r = State {
            controllers: stable.controllers,
            admins: stable.admins,
            authorized_canisters: roles_from(&stable.authorized_canisters),
            admin_permissions: grants_from(&stable.admin_permissions),
            rate_limit_buckets: SortedMap::new(),
            contacts,
            contacts_by_email,
            contacts_by_user,
            next_contact_id: stable.next_contact_id,
            deals,
            deals_by_contact,
            next_deal_id: stable.next_deal_id,
            transactions: map_from(&stable.transactions),
            next_transaction_id: stable.next_transaction_id,
            activity_log: stable.activity_log,
            metrics_history: stable.metrics_history,
            feature_flags: flags_from(&stable.feature_flags),
            audit_log: stable.audit_log,
            next_audit_log_id: if stable.next_audit_log_id == 0 {
                1
            } else {
                stable.next_audit_log_id
            },
        };
        proof {
            assert(r@.rate_limit_buckets =~= Map::empty());
        }
        r
    }

    /// Gives every contact and deal without an owner to the first admin, and
    /// records the first admin as the creator of every deal without one.
    /// Without an admin nothing changes.
    pub fn migrate_ownership(&mut self)
        requires
            old(self).wf(),
        ensures
            final(self).wf(),
            final(self)@ == old(self)@.migrated(),
            old(self)@.consistent() ==> final(self)@.consistent(),
            old(self)@.consistent() && old(self)@.contacts_indexed()
                ==> final(self)@.contacts_indexed(),
    {
        proof {
            if self@.consistent() {
                lemma_migrated(self@);
            }
        }
        if self.admins.len() == 0 {
            return ;
        }
        let admin: Principal = self.admins[0];
        let ghost contacts_before = self.contacts@;
        let keys = ascending_key_list(&self.contacts);
        let mut i: usize = 0;
        while i < keys.len()
            invariant
                lists_ascending(keys@, contacts_before.dom()),
                i <= keys@.len(),
                self.wf(),
                self.contacts@.dom() == contacts_before.dom(),
                forall|k: u64|
                    contacts_before.contains_key(k) ==> #[trigger] self.contacts@[k] == (if exists|
                        j: int,
                    |
                        0 <= j < i && keys@[j] == k {
                        owned_contact(contacts_before[k], admin)
                    } else {
                        contacts_before[k]
                    }),
                self.deals == old(self).deals,
                self.controllers == old(self).controllers,
                self.admins == old(self).admins,
                self.authorized_canisters == old(self).authorized_canisters,
                self.admin_permissions == old(self).admin_permissions,
                self.rate_limit_buckets == old(self).rate_limit_buckets,
                self.contacts_by_email == old(self).contacts_by_email,
                self.contacts_by_user == old(self).contacts_by_user,
                self.deals_by_contact == old(self).deals_by_contact,
                self.next_contact_id == old(self).next_contact_id,
                self.next_deal_id == old(self).next_deal_id,
                self.transactions == old(self).transactions,
                self.next_transaction_id == old(self).next_transaction_id,
                self.activity_log == old(self).activity_log,
                self.metrics_history == old(self).metrics_history,
                self.feature_flags == old(self).feature_flags,
                self.audit_log == old(self).audit_log,
                self.next_audit_log_id == old(self).next_audit_log_id,
            decreases keys@.len() - i,
        {
            let key: u64 = keys[i];
            proof {
                assert(keys@.contains(key));
            }
            let ghost current = self.contacts@;
            let changed: Option<Contact> = match self.contacts.get(&key) {
                Some(c) => {
                    if c.owner_id.is_none() {
                        let mut owned = c.clone();
                        owned.owner_id = Some(admin);
                        Some(owned)
                    } else {
                        None
                    }
                },
                None => None,
            };
            proof {
                assert(!(exists|j: int| 0 <= j < i && keys@[j] == key)) by {
                    if exists|j: int| 0 <= j < i && keys@[j] == key {
                        let j = choose|j: int| 0 <= j < i && keys@[j] == key;
                        assert(keys@[j] < keys@[i as int]);
                    }
                }
                assert(current[key] == contacts_before[key]);
            }
            match changed {
                Some(owned) => {
                    self.contacts.insert(key, owned);
                },
                None => {},
            }
            proof {
                assert(self.contacts@.dom() =~= contacts_before.dom());
                assert forall|k: u64|
                    contacts_before.contains_key(k) implies #[trigger] self.contacts@[k]
                    == (if exists|j: int| 0 <= j < i + 1 && keys@[j] == k {
                    owned_contact(contacts_before[k], admin)
                } else {
                    contacts_before[k]
                }) by {
                    if k == key {
                        assert(keys@[i as int] == k);
                    } else {
                        assert(self.contacts@[k] == current[k]);
                        if exists|j: int| 0 <= j < i + 1 && keys@[j] == k {
                            let j = choose|j: int| 0 <= j < i + 1 && keys@[j] == k;
                            assert(j < i);
                        }
                    }
                }
            }
            i += 1;
        }
        proof {
            assert forall|k: u64| contacts_before.contains_key(k) implies self.contacts@[k]
                == owned_contact(contacts_before[k], admin) by {
                assert(keys@.contains(k));
                let j = choose|j: int| 0 <= j < keys@.len() && keys@[j] == k;
                assert(0 <= j < i && keys@[j] == k);
            }
            assert(self.contacts@ =~= contacts_before.map_values(
                |c: Contact| owned_contact(c, admin),
            ));
        }
        let ghost deals_before = self.deals@;
        let deal_keys = ascending_key_list(&self.deals);
        let mut i: usize = 0;
        while i < deal_keys.len()
            invariant
                lists_ascending(deal_keys@, deals_before.dom()),
                i <= deal_keys@.len(),
                self.wf(),
                self.deals@.dom() == deals_before.dom(),
                forall|k: u64|
                    deals_before.contains_key(k) ==> #[trigger] self.deals@[k] == (if exists|j: int|
                        0 <= j < i && deal_keys@[j] == k {
                        owned_deal(deals_before[k], admin)
                    } else {
                        deals_before[k]
                    }),
                self.contacts@ == old(self).contacts@.map_values(|c: Contact| owned_contact(c, admin)),
                self.controllers == old(self).controllers,
                self.admins == old(self).admins,
                self.authorized_canisters == old(self).authorized_canisters,
                self.admin_permissions == old(self).admin_permissions,
                self.rate_limit_buckets == old(self).rate_limit_buckets,
                self.contacts_by_email == old(self).contacts_by_email,
                self.contacts_by_user == old(self).contacts_by_user,
                self.deals_by_contact == old(self).deals_by_contact,
                self.next_contact_id == old(self).next_contact_id,
                self.next_deal_id == old(self).next_deal_id,
                self.transactions == old(self).transactions,
                self.next_transaction_id == old(self).next_transaction_id,
                self.activity_log == old(self).activity_log,
                self.metrics_history == old(self).metrics_history,
                self.feature_flags == old(self).feature_flags,
                self.audit_log == old(self).audit_log,
                self.next_audit_log_id == old(self).next_audit_log_id,
            decreases deal_keys@.len() - i,
        {
            let key: u64 = deal_keys[i];
            proof {
                assert(deal_keys@.contains(key));
            }
            let ghost current = self.deals@;
            let changed: Option<Deal> = match self.deals.get(&key) {
                Some(d) => {
                    if d.owner_id.is_none() || d.created_by.is_none() {
                        let mut owned = d.clone();
                        if owned.owner_id.is_none() {
                            owned.owner_id = Some(admin);
                        }
                        if owned.created_by.is_none() {
                            owned.created_by = Some(admin);
                        }
                        Some(owned)
                    } else {
                        None
                    }
                },
                None => None,
            };
            proof {
                assert(!(exists|j: int| 0 <= j < i && deal_keys@[j] == key)) by {
                    if exists|j: int| 0 <= j < i && deal_keys@[j] == key {
                        let j = choose|j: int| 0 <= j < i && deal_keys@[j] == key;
                        assert(deal_keys@[j] < deal_keys@[i as int]);
                    }
                }
                assert(current[key] == deals_before[key]);
            }
            match changed {
                Some(owned) => {
                    self.deals.insert(key, owned);
                },
                None => {},
            }
            proof {
                assert(self.deals@.dom() =~= deals_before.dom());
                assert forall|k: u64| deals_before.contains_key(k) implies #[trigger] self.deals@[k]
                    == (if exists|j: int| 0 <= j < i + 1 && deal_keys@[j] == k {
                    owned_deal(deals_before[k], admin)
                } else {
                    deals_before[k]
                }) by {
                    if k == key {
                        assert(deal_keys@[i as int] == k);
                    } else {
                        assert(self.deals@[k] == current[k]);
                        if exists|j: int| 0 <= j < i + 1 && deal_keys@[j] == k {
                            let j = choose|j: int| 0 <= j < i + 1 && deal_keys@[j] == k;
                            assert(j < i);
                        }
                    }
                }
            }
            i += 1;
        }
        proof {
            assert forall|k: u64| deals_before.contains_key(k) implies self.deals@[k] == owned_deal(
                deals_before[k],
                admin,
            ) by {
                assert(deal_keys@.contains(k));
                let j = choose|j: int| 0 <= j < deal_keys@.len() && deal_keys@[j] == k;
                assert(0 <= j < i && deal_keys@[j] == k);
            }
            assert(self.deals@ =~= deals_before.map_values(|d: Deal| owned_deal(d, admin)));
        }
    }
}

} // verus!
