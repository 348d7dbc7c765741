//! Contacts, with row-level security.

use vstd::prelude::*;
use crate::invariants::{
    lemma_create_contact, lemma_create_contact_indexed, lemma_delete_contact,
    lemma_delete_contact_removes, lemma_update_contact,
};
use crate::ordered::{
    ascending_key_list, ascending_keys, ascending_values, lemma_ascending_push, lists_ascending,
};
use crate::principal::Principal;
use crate::seqs::{
    lemma_filter_members, lemma_filter_none, lemma_filter_step, lemma_page_push, lemma_to_set_push,
    page,
};
use crate::state::{State, StateView};
use crate::text::{contains_text, lowercase, lowercase_text, text_occurs_in};
use crate::types::{
    AdminPermission, Contact, ContactFilter, ContactId, ContactSource, ContactStatus,
    CreateContactRequest, PaginatedResponse, PaginationParams, Timestamp,
};

verus! {

/// The new value of a field of a partial update: what was asked for, or
/// else what has been there.
pub open spec fn or_kept<T>(asked: Option<T>, kept: Option<T>) -> Option<T> {
    if asked is Some {
        asked
    } else {
        kept
    }
}

/// The contact `c` after a partial update at `now`.
pub open spec fn updated_contact(
    c: Contact,
    name: Option<String>,
    company: Option<String>,
    job_title: Option<String>,
    interest_area: Option<String>,
    notes: Option<String>,
    status: Option<ContactStatus>,
    now: Timestamp,
) -> Contact {
    Contact {
        name: or_kept(name, c.name),
        company: or_kept(company, c.company),
        job_title: or_kept(job_title, c.job_title),
        interest_area: or_kept(interest_area, c.interest_area),
        notes: or_kept(notes, c.notes),
        status: match status {
            Some(s) => s,
            None => c.status,
        },
        updated_at: now,
        ..c
    }
}

/// Whether `caller` may see the contact `c`: with the right to see all
/// contacts, or as its owner.
pub open spec fn contact_visible(c: Contact, caller: Principal, view_all: bool) -> bool {
    view_all || c.owner_id == Some(caller)
}

/// Whether the search text `q` occurs, letter case aside, in the email, the
/// name or the company of `c`.
pub open spec fn contact_mentions(c: Contact, q: Seq<char>) -> bool {
    let needle = lowercase_text(q);
    ||| text_occurs_in(needle, lowercase_text(c.email@))
    ||| (c.name matches Some(n) && text_occurs_in(needle, lowercase_text(n@)))
    ||| (c.company matches Some(co) && text_occurs_in(needle, lowercase_text(co@)))
}

/// Whether `c` passes every field of the filter that is set.
pub open spec fn contact_passes(c: Contact, filter: Option<ContactFilter>) -> bool {
    match filter {
        None => true,
        Some(f) => {
            &&& f.status matches Some(s) ==> c.status == s
            &&& f.source matches Some(s) ==> c.source == s
            &&& f.search matches Some(q) ==> contact_mentions(c, q@)
        },
    }
}

/// The test of the contacts that a listing for `caller` holds.
pub open spec fn contact_listed(
    caller: Principal,
    view_all: bool,
    filter: Option<ContactFilter>,
) -> spec_fn(Contact) -> bool {
    |c: Contact| contact_visible(c, caller, view_all) && contact_passes(c, filter)
}

impl StateView {
    /// The contact that `request` asks for, created by `caller` at `now`.
    pub open spec fn new_contact(
        self,
        request: CreateContactRequest,
        caller: Principal,
        now: Timestamp,
    ) -> Contact {
        Contact {
            id: self.next_contact_id,
            user_id: request.user_id,
            email: request.email,
            name: request.name,
            company: request.company,
            job_title: request.job_title,
            interest_area: request.interest_area,
            source: match request.source {
                Some(s) => s,
                None => ContactSource::Signup,
            },
            notes: request.notes,
            status: ContactStatus::Active,
            owner_id: Some(caller),
            team_id: None,
            created_at: now,
            updated_at: now,
        }
    }

    /// The store after the contact `c` has been created: it stands under its
    /// number, under its email in lower case and under its user reference.
    pub open spec fn with_contact(self, c: Contact) -> StateView {
        StateView {
            contacts: self.contacts.insert(c.id, c),
            contacts_by_email: self.contacts_by_email.insert(lowercase_text(c.email@), c.id),
            contacts_by_user: match c.user_id {
                Some(u) => self.contacts_by_user.insert(u@, c.id),
                None => self.contacts_by_user,
            },
            next_contact_id: (c.id + 1) as u64,
            ..self
        }
    }

    /// Whether neither the email nor the user reference of `request` is
    /// that of a contact already.
    pub open spec fn is_new_to_indexes(self, request: CreateContactRequest) -> bool {
        &&& !self.contacts_by_email.contains_key(lowercase_text(request.email@))
        &&& request.user_id matches Some(u) ==> !self.contacts_by_user.contains_key(u@)
    }

    /// The contact with the number `id`.
    pub open spec fn contact(self, id: ContactId) -> Option<Contact> {
        if self.contacts.contains_key(id) {
            Some(self.contacts[id])
        } else {
            None
        }
    }

    /// The contact that the email index gives for `email`, letter case aside.
    pub open spec fn contact_by_email(self, email: Seq<char>) -> Option<Contact> {
        let key = lowercase_text(email);
        if self.contacts_by_email.contains_key(key) {
            self.contact(self.contacts_by_email[key])
        } else {
            None
        }
    }

    /// The contact that the index of user references gives for `user_id`.
    pub open spec fn contact_by_user(self, user_id: Seq<char>) -> Option<Contact> {
        if self.contacts_by_user.contains_key(user_id) {
            self.contact(self.contacts_by_user[user_id])
        } else {
            None
        }
    }

    /// The numbers of the deals that the index holds for the contact `id`.
    pub open spec fn deals_of(self, id: ContactId) -> Seq<u64> {
        if self.deals_by_contact.contains_key(id) {
            self.deals_by_contact[id]
        } else {
            Seq::empty()
        }
    }

    /// The store after the contact `id` has been deleted: it has left the
    /// contacts and their indexes, and the deals that the index held for it
    /// are gone with it.
    pub open spec fn without_contact(self, id: ContactId) -> StateView {
        let c = self.contacts[id];
        StateView {
            contacts: self.contacts.remove(id),
            contacts_by_email: self.contacts_by_email.remove(lowercase_text(c.email@)),
            contacts_by_user: match c.user_id {
                Some(u) => self.contacts_by_user.remove(u@),
                None => self.contacts_by_user,
            },
            deals_by_contact: self.deals_by_contact.remove(id),
            deals: self.deals.remove_keys(self.deals_of(id).to_set()),
            ..self
        }
    }

    /// Whether `caller` may list contacts at all.
    pub open spec fn may_list_contacts(self, caller: Principal) -> bool {
        self.has_permission(caller, AdminPermission::ViewAllContacts) || self.has_permission(
            caller,
            AdminPermission::ViewOwnContacts,
        )
    }

    /// All the contacts that a listing for `caller` holds, in the order of
    /// their numbers: none without a right to see contacts, only the
    /// caller's own without the right to see all, and of these the ones that
    /// pass the filter.
    pub open spec fn contacts_for(self, caller: Principal, filter: Option<ContactFilter>) -> Seq<
        Contact,
    > {
        if self.may_list_contacts(caller) {
            ascending_values(self.contacts).filter(
                contact_listed(
                    caller,
                    self.has_permission(caller, AdminPermission::ViewAllContacts),
                    filter,
                ),
            )
        } else {
            Seq::empty()
        }
    }
}

fn mentions(field: &String, needle: &String) -> (r: bool)
    ensures
        r == text_occurs_in(needle@, lowercase_text(field@)),
{
    let lowered = lowercase(field.as_str());
    contains_text(lowered.as_str(), needle.as_str())
}

fn mentions_opt(field: &Option<String>, needle: &String) -> (r: bool)
    ensures
        r == (*field matches Some(t) && text_occurs_in(needle@, lowercase_text(t@))),
{
    match field {
        Some(t) => mentions(t, needle),
        None => false,
    }
}

/// Whether `c` passes every field of the filter that is set; `needle` is
/// the filter's search text in lower case.
fn passes_contact_filter(
    c: &Contact,
    filter: &Option<ContactFilter>,
    needle: &Option<String>,
) -> (r: bool)
    requires
        *filter matches Some(f) ==> (f.search matches Some(q) ==> (*needle matches Some(n) && n@
            == lowercase_text(q@))),
    ensures
        r == contact_passes(*c, *filter),
{
    match filter {
        None => true,
        Some(f) => {
            let by_status: bool = match f.status {
                Some(s) => c.status == s,
                None => true,
            };
            let by_source: bool = match f.source {
                Some(s) => c.source == s,
                None => true,
            };
            if !by_status || !by_source {
                return false;
            }
            match &f.search {
                None => true,
                Some(_q) => match needle {
                    Some(n) => mentions(&c.email, n) || mentions_opt(&c.name, n) || mentions_opt(
                        &c.company,
                        n,
                    ),
                    None => false,
                },
            }
        },
    }
}

impl State {
    /// Creates a contact under the next number. The caller becomes its owner.
    /// The new contact is the last in the order of the numbers.
    pub fn create_contact(
        &mut self,
        request: CreateContactRequest,
        caller: Principal,
        now: Timestamp,
    ) -> (r: Contact)
        requires
            old(self).wf(),
            old(self)@.next_contact_id < u64::MAX,
        ensures
            final(self).wf(),
            r == old(self)@.new_contact(request, caller, now),
            final(self)@ == old(self)@.with_contact(r),
            old(self)@.consistent() ==> final(self)@.consistent(),
            old(self)@.contacts_numbered() ==> ascending_values(final(self)@.contacts)
                == ascending_values(old(self)@.contacts).push(r),
            old(self)@.consistent() ==> final(self)@.contact(r.id) == Some(r),
            old(self)@.consistent() ==> final(self)@.contact_by_email(r.email@) == Some(r),
            old(self)@.consistent() && old(self)@.contacts_indexed()
                && old(self)@.is_new_to_indexes(request) ==> final(self)@.contacts_indexed(),
    {
        proof {
            if self@.contacts_numbered() {
                lemma_ascending_push(
                    self@.contacts,
                    self@.next_contact_id,
                    self@.new_contact(request, caller, now),
                );
            }
            if self@.consistent() {
                lemma_create_contact(self@, request, caller, now);
                if self@.contacts_indexed() && self@.is_new_to_indexes(request) {
                    lemma_create_contact_indexed(self@, request, caller, now);
                }
            }
        }
        let id: ContactId = self.next_contact_id;
        self.next_contact_id = id + 1;
        let email_key = lowercase(request.email.as_str());
        let user_key: Option<String> = request.user_id.clone();
        let source: ContactSource = match request.source {
            Some(s) => s,
            None => ContactSource::Signup,
        };
        let contact = Contact {
            id,
            user_id: request.user_id,
            email: request.email,
            name: request.name,
            company: request.company,
            job_title: request.job_title,
            interest_area: request.interest_area,
            source,
            notes: request.notes,
            status: ContactStatus::Active,
            owner_id: Some(caller),
            team_id: None,
            created_at: now,
            updated_at: now,
        };
        self.contacts.insert(id, contact.clone());
        self.contacts_by_email.insert(email_key, id);
        match user_key {
            Some(u) => {
                self.contacts_by_user.insert(u, id);
            },
            None => {},
        }
        contact
    }

    /// The contact with the number `id`.
    pub fn get_contact(&self, id: ContactId) -> (r: Option<&Contact>)
        ensures
            match r {
                Some(c) => self@.contact(id) == Some(*c),
                None => self@.contact(id) is None,
            },
    {
        self.contacts.get(&id)
    }

    /// The contact with the email `email`, letter case aside.
    pub fn get_contact_by_email(&self, email: &str) -> (r: Option<&Contact>)
        requires
            self.wf(),
        ensures
            match r {
                Some(c) => self@.contact_by_email(email@) == Some(*c),
                None => self@.contact_by_email(email@) is None,
            },
    {
        let key = lowercase(email);
        match self.contacts_by_email.get(&key) {
            Some(id) => self.contacts.get(id),
            None => None,
        }
    }

    /// The contact with the user reference `user_id`.
    pub fn get_contact_by_user(&self, user_id: &str) -> (r: Option<&Contact>)
        requires
            self.wf(),
        ensures
            match r {
                Some(c) => self@.contact_by_user(user_id@) == Some(*c),
                None => self@.contact_by_user(user_id@) is None,
            },
    {
        let key = user_id.to_string();
        match self.contacts_by_user.get(&key) {
            Some(id) => self.contacts.get(id),
            None => None,
        }
    }

    /// Changes the fields of the contact `id` that are given, and stamps it
    /// with `now`. Returns the contact as it is then; `None`, and nothing
    /// changes, where there is no such contact.
    pub fn update_contact(
        &mut self,
        id: ContactId,
        name: Option<String>,
        company: Option<String>,
        job_title: Option<String>,
        interest_area: Option<String>,
        notes: Option<String>,
        status: Option<ContactStatus>,
        now: Timestamp,
    ) -> (r: Option<Contact>)
        requires
            old(self).wf(),
        ensures
            final(self).wf(),
            match r {
                Some(c) => old(self)@.contacts.contains_key(id) && c == updated_contact(
                    old(self)@.contacts[id],
                    name,
                    company,
                    job_title,
                    interest_area,
                    notes,
                    status,
                    now,
                ) && final(self)@ == (StateView {
                    contacts: old(self)@.contacts.insert(id, c),
                    ..old(self)@
                }),
                None => !old(self)@.contacts.contains_key(id) && final(self)@ == old(self)@,
            },
            old(self)@.consistent() ==> final(self)@.consistent(),
            old(self)@.consistent() && old(self)@.contacts_indexed()
                ==> final(self)@.contacts_indexed(),
    {
        proof {
            if self@.consistent() && self@.contacts.contains_key(id) {
                lemma_update_contact(
                    self@,
                    id,
                    updated_contact(
                        self@.contacts[id],
                        name,
                        company,
                        job_title,
                        interest_area,
                        notes,
                        status,
                        now,
                    ),
                );
            }
        }
        let mut contact: Contact = match self.contacts.get(&id) {
            Some(c) => c.clone(),
            None => {
                return None;
            },
        };
        if name.is_some() {
            contact.name = name;
        }
        if company.is_some() {
            contact.company = company;
        }
        if job_title.is_some() {
            contact.job_title = job_title;
        }
        if interest_area.is_some() {
            contact.interest_area = interest_area;
        }
        if notes.is_some() {
            contact.notes = notes;
        }
        match status {
            Some(s) => {
                contact.status = s;
            },
            None => {},
        }
        contact.updated_at = now;
        self.contacts.insert(id, contact.clone());
        Some(contact)
    }

    /// Deletes the contact `id`, and with it the deals that the index holds
    /// for it. Returns the contact; `None`, and nothing changes, where there
    /// is no such contact.
    ///
    /// Where every deal stands in the list of its contact, no deal with the
    /// contact is left; where every list holds deals of its own contact
    /// only, every deal of another contact is left as it was.
    pub fn delete_contact(&mut self, id: ContactId) -> (r: Option<Contact>)
        requires
            old(self).wf(),
        ensures
            final(self).wf(),
            r == old(self)@.contact(id),
            final(self)@ == (if old(self)@.contacts.contains_key(id) {
                old(self)@.without_contact(id)
            } else {
                old(self)@
            }),
            old(self)@.consistent() ==> final(self)@.consistent(),
            old(self)@.consistent() && old(self)@.contacts_indexed()
                ==> final(self)@.contacts_indexed(),
            r matches Some(c) ==> final(self)@.contact_by_email(c.email@) is None,
            r is Some && old(self)@.deals_listed() ==> forall|d: u64| #[trigger]
                final(self)@.deals.contains_key(d) ==> final(self)@.deals[d].contact_id != id,
            r is Some && old(self)@.deal_lists_sound() ==> forall|d: u64|
                old(self)@.deals.contains_key(d) && old(self)@.deals[d].contact_id != id
                    ==> #[trigger] final(self)@.deals.contains_key(d) && final(self)@.deals[d]
                    == old(self)@.deals[d],
    {
        proof {
            if self@.contacts.contains_key(id) {
                lemma_delete_contact_removes(self@, id);
                if self@.consistent() {
                    lemma_delete_contact(self@, id);
                }
            }
        }
        let contact: Contact = match self.contacts.remove(&id) {
            Some(c) => c,
            None => {
                proof {
                    assert(self.contacts@ =~= old(self).contacts@);
                }
                return None;
            },
        };
        let email_key = lowercase(contact.email.as_str());
        self.contacts_by_email.remove(&email_key);
        match &contact.user_id {
            Some(u) => {
                self.contacts_by_user.remove(u);
            },
            None => {},
        }
        let ghost deals_before = self.deals@;
        let ghost index_before = self.deals_by_contact@;
        match self.deals_by_contact.remove(&id) {
            Some(deal_ids) => {
                let mut i: usize = 0;
                proof {
                    assert(deal_ids@.take(0).to_set() =~= Set::<u64>::empty());
                    assert(deals_before.remove_keys(Set::<u64>::empty()) =~= deals_before);
                }
                while i < deal_ids.len()
                    invariant
                        i <= deal_ids@.len(),
                        self.deals@ == deals_before.remove_keys(deal_ids@.take(i as int).to_set()),
                        self.wf(),
                        self.contacts@ == old(self).contacts@.remove(id),
                        self.contacts_by_email@ == old(self).contacts_by_email@.remove(
                            lowercase_text(contact.email@),
                        ),
                        self.contacts_by_user@ == (match contact.user_id {
                            Some(u) => old(self).contacts_by_user@.remove(u@),
                            None => old(self).contacts_by_user@,
                        }),
                        self.deals_by_contact@ == index_before.remove(id),
                        self.controllers == old(self).controllers,
                        self.admins == old(self).admins,
                        self.authorized_canisters == old(self).authorized_canisters,
                        self.admin_permissions == old(self).admin_permissions,
                        self.rate_limit_buckets == old(self).rate_limit_buckets,
                        self.next_contact_id == old(self).next_contact_id,
                        self.next_deal_id == old(self).next_deal_id,
                        self.transactions == old(self).transactions,
                        self.next_transaction_id == old(self).next_transaction_id,
                        self.activity_log == old(self).activity_log,
                        self.metrics_history == old(self).metrics_history,
                        self.feature_flags == old(self).feature_flags,
                        self.audit_log == old(self).audit_log,
                        self.next_audit_log_id == old(self).next_audit_log_id,
                    decreases deal_ids@.len() - i,
                {
                    let deal_id: u64 = deal_ids[i];
                    self.deals.remove(&deal_id);
                    proof {
                        assert(deal_ids@.take(i + 1) =~= deal_ids@.take(i as int).push(deal_id));
                        lemma_to_set_push(deal_ids@.take(i as int), deal_id);
                        assert(self.deals@ =~= deals_before.remove_keys(
                            deal_ids@.take(i + 1).to_set(),
                        ));
                    }
                    i += 1;
                }
                proof {
                    assert(deal_ids@.take(deal_ids@.len() as int) =~= deal_ids@);
                    assert(old(self)@.deals_of(id) == deal_ids@);
                    assert(self@.deals_by_contact =~= old(self)@.deals_by_contact.remove(id));
                }
            },
            None => {
                proof {
                    assert(old(self)@.deals_of(id) =~= Seq::<u64>::empty());
                    assert(Seq::<u64>::empty().to_set() =~= Set::<u64>::empty());
                    assert(deals_before.remove_keys(Set::<u64>::empty()) =~= deals_before);
                    assert(self@.deals_by_contact =~= old(self)@.deals_by_contact.remove(id));
                }
            },
        }
        Some(contact)
    }

    /// One page of the contacts that `caller` may see and that pass the
    /// filter, in the order of their numbers.
    ///
    /// A caller without a right to see contacts gets an empty page; one
    /// without the right to see all contacts gets its own contacts only.
    pub fn get_contacts(
        &self,
        filter: Option<ContactFilter>,
        pagination: PaginationParams,
        caller: &Principal,
    ) -> (r: PaginatedResponse<Contact>)
        requires
            self.wf(),
        ensures
            r.items@ == page(
                self@.contacts_for(*caller, filter),
                pagination.offset_or_default(),
                pagination.limit_or_default(),
            ),
            r.total == self@.contacts_for(*caller, filter).len(),
            r.offset == pagination.offset_or_default(),
            r.limit == pagination.limit_or_default(),
            !self@.may_list_contacts(*caller) ==> r.items@.len() == 0 && r.total == 0,
            !self@.has_permission(*caller, AdminPermission::ViewAllContacts) ==> forall|i: int|
                0 <= i < r.items@.len() ==> (#[trigger] r.items@[i]).owner_id == Some(*caller),
    {
        let view_all = self.has_permission(caller, &AdminPermission::ViewAllContacts);
        let view_own = self.has_permission(caller, &AdminPermission::ViewOwnContacts);
        let offset: u64 = match pagination.offset {
            Some(o) => o,
            None => 0,
        };
        let limit: u64 = match pagination.limit {
            Some(l) => l,
            None => 50,
        };
        if !view_all && !view_own {
            return PaginatedResponse { items: Vec::new(), total: 0, offset, limit };
        }
        let needle: Option<String> = match &filter {
            Some(f) => match &f.search {
                Some(q) => Some(lowercase(q.as_str())),
                None => None,
            },
            None => None,
        };
        let ghost pred = contact_listed(*caller, view_all, filter);
        let ghost all = ascending_values(self@.contacts);
        let keys = ascending_key_list(&self.contacts);
        let mut items: Vec<Contact> = Vec::new();
        let mut total: u64 = 0;
        let mut i: usize = 0;
        proof {
            lemma_filter_none(all.take(0), pred);
            assert(all.len() == keys@.len());
        }
        while i < keys.len()
            invariant
                self.wf(),
                keys@ == ascending_keys(self@.contacts.dom()),
                lists_ascending(keys@, self@.contacts.dom()),
                all == ascending_values(self@.contacts),
                all.len() == keys@.len(),
                pred == contact_listed(*caller, view_all, filter),
                filter matches Some(f) ==> (f.search matches Some(q) ==> (needle matches Some(n)
                    && n@ == lowercase_text(q@))),
                i <= keys@.len(),
                total == all.take(i as int).filter(pred).len(),
                total <= i,
                items@ == page(all.take(i as int).filter(pred), offset, limit),
            decreases keys@.len() - i,
        {
            let key: u64 = keys[i];
            proof {
                assert(keys@.contains(key));
                assert(self@.contacts.dom().contains(key));
                lemma_filter_step(all, pred, i as int);
                lemma_page_push(all.take(i as int).filter(pred), all[i as int], offset, limit);
            }
            match self.contacts.get(&key) {
                Some(c) => {
                    let visible: bool = view_all || c.owner_id == Some(*caller);
                    if visible && passes_contact_filter(c, &filter, &needle) {
                        if total >= offset && (items.len() as u64) < limit {
                            items.push(c.clone());
                        }
                        total = total + 1;
                    }
                },
                None => {},
            }
            i += 1;
        }
        proof {
            assert(all.take(all.len() as int) =~= all);
            lemma_filter_members(all, pred);
            let listed = all.filter(pred);
            let shown = page(listed, offset, limit);
            assert forall|j: int| 0 <= j < shown.len() implies pred(#[trigger] shown[j]) by {
                if offset < listed.len() {
                    assert(shown[j] == listed[j + offset]);
                }
            }
        }
        PaginatedResponse { items, total, offset, limit }
    }
}

} // verus!
