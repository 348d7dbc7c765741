//! Deals, with row-level security.

use vstd::prelude::*;
use crate::invariants::{lemma_create_deal, lemma_delete_deal, lemma_update_deal};
use crate::ordered::{
    ascending_key_list, ascending_keys, ascending_values, lemma_ascending_push, lists_ascending,
};
use crate::principal::Principal;
use crate::seqs::{
    lemma_filter_members, lemma_filter_none, lemma_filter_step, lemma_page_push, page,
};
use crate::state::{State, StateView};
use crate::types::{
    AdminPermission, CreateDealRequest, Deal, DealFilter, DealId, DealStage, PaginatedResponse,
    PaginationParams, Timestamp,
};

verus! {

/// What the creation of a deal for an unknown contact is answered with.
pub open spec fn contact_not_found() -> Seq<char> {
    "Contact not found"@
}

/// The test that every number but `id` passes.
pub open spec fn other_deal(id: DealId) -> spec_fn(DealId) -> bool {
    |d: DealId| d != id
}

/// The deal `d` after a partial update at `now`.
pub open spec fn updated_deal(
    d: Deal,
    name: Option<String>,
    value: Option<u64>,
    stage: Option<DealStage>,
    notes: Option<String>,
    expected_close_date: Option<Timestamp>,
    now: Timestamp,
) -> Deal {
    Deal {
        name: match name {
            Some(n) => n,
            None => d.name,
        },
        value: if value is Some {
            value
        } else {
            d.value
        },
        stage: match stage {
            Some(s) => s,
            None => d.stage,
        },
        notes: if notes is Some {
            notes
        } else {
            d.notes
        },
        expected_close_date: if expected_close_date is Some {
            expected_close_date
        } else {
            d.expected_close_date
        },
        updated_at: now,
        ..d
    }
}

/// Whether `caller` may see the deal `d`: with the right to see all deals,
/// or as its owner.
pub open spec fn deal_visible(d: Deal, caller: Principal, view_all: bool) -> bool {
    view_all || d.owner_id == Some(caller)
}

/// Whether `d` passes every field of the filter that is set.
pub open spec fn deal_passes(d: Deal, filter: Option<DealFilter>) -> bool {
    match filter {
        None => true,
        Some(f) => {
            &&& f.stage matches Some(s) ==> d.stage == s
            &&& f.contact_id matches Some(c) ==> d.contact_id == c
        },
    }
}

/// The test of the deals that a listing for `caller` holds.
pub open spec fn deal_listed(caller: Principal, view_all: bool, filter: Option<DealFilter>) -> spec_fn(
    Deal,
) -> bool {
    |d: Deal| deal_visible(d, caller, view_all) && deal_passes(d, filter)
}

impl StateView {
    /// The deal that `request` asks for, created by `caller` at `now`.
    pub open spec fn new_deal(self, request: CreateDealRequest, caller: Principal, now: Timestamp) -> Deal {
        Deal {
            id: self.next_deal_id,
            contact_id: request.contact_id,
            name: request.name,
            value: request.value,
            stage: DealStage::Lead,
            notes: request.notes,
            expected_close_date: request.expected_close_date,
            owner_id: Some(caller),
            created_by: Some(caller),
            created_at: now,
            updated_at: now,
        }
    }

    /// The store after the deal `d` has been created: it stands under its
    /// number, and its number is the last of its contact's deals.
    pub open spec fn with_deal(self, d: Deal) -> StateView {
        StateView {
            deals: self.deals.insert(d.id, d),
            deals_by_contact: self.deals_by_contact.insert(
                d.contact_id,
                self.deals_of(d.contact_id).push(d.id),
            ),
            next_deal_id: (d.id + 1) as u64,
            ..self
        }
    }

    /// The deal with the number `id`.
    pub open spec fn deal(self, id: DealId) -> Option<Deal> {
        if self.deals.contains_key(id) {
            Some(self.deals[id])
        } else {
            None
        }
    }

    /// The store after the deal `id` has been deleted: it has left the deals
    /// and the list of its contact's deals.
    pub open spec fn without_deal(self, id: DealId) -> StateView {
        let d = self.deals[id];
        StateView {
            deals: self.deals.remove(id),
            deals_by_contact: if self.deals_by_contact.contains_key(d.contact_id) {
                self.deals_by_contact.insert(
                    d.contact_id,
                    self.deals_by_contact[d.contact_id].filter(other_deal(id)),
                )
            } else {
                self.deals_by_contact
            },
            ..self
        }
    }

    /// Whether `caller` may list deals at all.
    pub open spec fn may_list_deals(self, caller: Principal) -> bool {
        self.has_permission(caller, AdminPermission::ViewAllDeals) || self.has_permission(
            caller,
            AdminPermission::ViewOwnDeals,
        )
    }

    /// All the deals that a listing for `caller` holds, in the order of
    /// their numbers: none without a right to see deals, only the caller's
    /// own without the right to see all, and of these the ones that pass the
    /// filter.
    pub open spec fn deals_for(self, caller: Principal, filter: Option<DealFilter>) -> Seq<Deal> {
        if self.may_list_deals(caller) {
            ascending_values(self.deals).filter(
                deal_listed(
                    caller,
                    self.has_permission(caller, AdminPermission::ViewAllDeals),
                    filter,
                ),
            )
        } else {
            Seq::empty()
        }
    }
}

fn passes_deal_filter(d: &Deal, filter: &Option<DealFilter>) -> (r: bool)
    ensures
        r == deal_passes(*d, *filter),
{
    match filter {
        None => true,
        Some(f) => {
            let by_stage: bool = match f.stage {
                Some(s) => d.stage == s,
                None => true,
            };
            let by_contact: bool = match f.contact_id {
                Some(c) => d.contact_id == c,
                None => true,
            };
            by_stage && by_contact
        },
    }
}

impl State {
    /// Creates a deal with an existing contact, under the next number. The
    /// caller becomes its owner and is recorded as its creator. Without the
    /// contact nothing changes.
    pub fn create_deal(
        &mut self,
        request: CreateDealRequest,
        caller: Principal,
        now: Timestamp,
    ) -> (r: Result<Deal, String>)
        requires
            old(self).wf(),
            old(self)@.next_deal_id < u64::MAX,
        ensures
            final(self).wf(),
            r is Ok <==> old(self)@.contacts.contains_key(request.contact_id),
            match r {
                Ok(d) => d == old(self)@.new_deal(request, caller, now) && final(self)@ == old(
                    self,
                )@.with_deal(d),
                Err(e) => e@ == contact_not_found() && final(self)@ == old(self)@,
            },
            r is Ok && old(self)@.deals_numbered() ==> ascending_values(final(self)@.deals)
                == ascending_values(old(self)@.deals).push(r->Ok_0),
            old(self)@.consistent() ==> final(self)@.consistent(),
            old(self)@.consistent() && old(self)@.contacts_indexed()
                ==> final(self)@.contacts_indexed(),
    {
        proof {
            if self@.deals_numbered() {
                lemma_ascending_push(
                    self@.deals,
                    self@.next_deal_id,
                    self@.new_deal(request, caller, now),
                );
            }
            if self@.consistent() && self@.contacts.contains_key(request.contact_id) {
                lemma_create_deal(self@, request, caller, now);
            }
        }
        if !self.contacts.contains_key(&request.contact_id) {
            return Err("Contact not found".to_string());
        }
        let id: DealId = self.next_deal_id;
        self.next_deal_id = id + 1;
        let contact_id = request.contact_id;
        let deal = Deal {
            id,
            contact_id,
            name: request.name,
            value: request.value,
            stage: DealStage::Lead,
            notes: request.notes,
            expected_close_date: request.expected_close_date,
            owner_id: Some(caller),
            created_by: Some(caller),
            created_at: now,
            updated_at: now,
        };
        self.deals.insert(id, deal.clone());
        let ghost index_before = self.deals_by_contact@;
        let mut list: Vec<DealId> = match self.deals_by_contact.remove(&contact_id) {
            Some(l) => l,
            None => Vec::new(),
        };
        list.push(id);
        self.deals_by_contact.insert(contact_id, list);
        proof {
            assert(self.deals_by_contact@ =~= index_before.insert(contact_id, list));
            assert(self@.deals_by_contact =~= old(self)@.with_deal(deal).deals_by_contact);
        }
        Ok(deal)
    }

    /// The deal with the number `id`.
    pub fn get_deal(&self, id: DealId) -> (r: Option<&Deal>)
        ensures
            match r {
                Some(d) => self@.deal(id) == Some(*d),
                None => self@.deal(id) is None,
            },
    {
        self.deals.get(&id)
    }

    /// Moves the deal `id` to `stage`, and stamps it with `now`. Returns the
    /// deal as it is then; `None`, and nothing changes, where there is no
    /// such deal.
    pub fn update_deal_stage(&mut self, id: DealId, stage: DealStage, now: Timestamp) -> (r: Option<
        Deal,
    >)
        requires
            old(self).wf(),
        ensures
            final(self).wf(),
            match r {
                Some(d) => old(self)@.deals.contains_key(id) && d == (Deal {
                    stage,
                    updated_at: now,
                    ..old(self)@.deals[id]
                }) && final(self)@ == (StateView {
                    deals: old(self)@.deals.insert(id, d),
                    ..old(self)@
                }),
                None => !old(self)@.deals.contains_key(id) && final(self)@ == old(self)@,
            },
            old(self)@.consistent() ==> final(self)@.consistent(),
            old(self)@.consistent() && old(self)@.contacts_indexed()
                ==> final(self)@.contacts_indexed(),
    {
        proof {
            if self@.consistent() && self@.deals.contains_key(id) {
                lemma_update_deal(self@, id, Deal { stage, updated_at: now, ..self@.deals[id] });
            }
        }
        let mut deal: Deal = match self.deals.get(&id) {
            Some(d) => d.clone(),
            None => {
                return None;
            },
        };
        deal.stage = stage;
        deal.updated_at = now;
        self.deals.insert(id, deal.clone());
        Some(deal)
    }

    /// Changes the fields of the deal `id` that are given, and stamps it with
    /// `now`. Returns the deal as it is then; `None`, and nothing changes,
    /// where there is no such deal.
    pub fn update_deal(
        &mut self,
        id: DealId,
        name: Option<String>,
        value: Option<u64>,
        stage: Option<DealStage>,
        notes: Option<String>,
        expected_close_date: Option<Timestamp>,
        now: Timestamp,
    ) -> (r: Option<Deal>)
        requires
            old(self).wf(),
        ensures
            final(self).wf(),
            match r {
                Some(d) => old(self)@.deals.contains_key(id) && d == updated_deal(
                    old(self)@.deals[id],
                    name,
                    value,
                    stage,
                    notes,
                    expected_close_date,
                    now,
                ) && final(self)@ == (StateView {
                    deals: old(self)@.deals.insert(id, d),
                    ..old(self)@
                }),
                None => !old(self)@.deals.contains_key(id) && final(self)@ == old(self)@,
            },
            old(self)@.consistent() ==> final(self)@.consistent(),
            old(self)@.consistent() && old(self)@.contacts_indexed()
                ==> final(self)@.contacts_indexed(),
    {
        proof {
            if self@.consistent() && self@.deals.contains_key(id) {
                lemma_update_deal(
                    self@,
                    id,
                    updated_deal(self@.deals[id], name, value, stage, notes, expected_close_date, now),
                );
            }
        }
        let mut deal: Deal = match self.deals.get(&id) {
            Some(d) => d.clone(),
            None => {
                return None;
            },
        };
        match name {
            Some(n) => {
                deal.name = n;
            },
            None => {},
        }
        if value.is_some() {
            deal.value = value;
        }
        match stage {
            Some(s) => {
                deal.stage = s;
            },
            None => {},
        }
        if notes.is_some() {
            deal.notes = notes;
        }
        if expected_close_date.is_some() {
            deal.expected_close_date = expected_close_date;
        }
        deal.updated_at = now;
        self.deals.insert(id, deal.clone());
        Some(deal)
    }

    /// Deletes the deal `id`. Returns the deal; `None`, and nothing changes,
    /// where there is no such deal.
    pub fn delete_deal(&mut self, id: DealId) -> (r: Option<Deal>)
        requires
            old(self).wf(),
        ensures
            final(self).wf(),
            r == old(self)@.deal(id),
            final(self)@ == (if old(self)@.deals.contains_key(id) {
                old(self)@.without_deal(id)
            } else {
                old(self)@
            }),
            old(self)@.consistent() ==> final(self)@.consistent(),
            old(self)@.consistent() && old(self)@.contacts_indexed()
                ==> final(self)@.contacts_indexed(),
    {
        proof {
            if self@.consistent() && self@.deals.contains_key(id) {
                lemma_delete_deal(self@, id);
            }
        }
        let deal: Deal = match self.deals.remove(&id) {
            Some(d) => d,
            None => {
                proof {
                    assert(self.deals@ =~= old(self).deals@);
                }
                return None;
            },
        };
        let ghost index_before = self.deals_by_contact@;
        match self.deals_by_contact.remove(&deal.contact_id) {
            Some(list) => {
                let ghost keep = other_deal(id);
                let mut kept: Vec<DealId> = Vec::new();
                let mut i: usize = 0;
                proof {
                    lemma_filter_none(list@.take(0), keep);
                }
                while i < list.len()
                    invariant
                        i <= list@.len(),
                        keep == other_deal(id),
                        kept@ == list@.take(i as int).filter(keep),
                    decreases list@.len() - i,
                {
                    proof {
                        lemma_filter_step(list@, keep, i as int);
                    }
                    if list[i] != id {
                        kept.push(list[i]);
                    }
                    i += 1;
                }
                proof {
                    assert(list@.take(list@.len() as int) =~= list@);
                }
                self.deals_by_contact.insert(deal.contact_id, kept);
                proof {
                    assert(self.deals_by_contact@ =~= index_before.insert(deal.contact_id, kept));
                    assert(index_before.contains_key(deal.contact_id));
                    assert(self@.deals_by_contact =~= old(self)@.without_deal(id).deals_by_contact);
                }
            },
            None => {
                proof {
                    assert(self.deals_by_contact@ =~= index_before);
                }
            },
        }
        Some(deal)
    }

    /// One page of the deals that `caller` may see and that pass the filter,
    /// in the order of their numbers.
    ///
    /// A caller without a right to see deals gets an empty page; one without
    /// the right to see all deals gets its own deals only.
    pub fn get_deals(
        &self,
        filter: Option<DealFilter>,
        pagination: PaginationParams,
        caller: &Principal,
    ) -> (r: PaginatedResponse<Deal>)
        requires
            self.wf(),
        ensures
            r.items@ == page(
                self@.deals_for(*caller, filter),
                pagination.offset_or_default(),
                pagination.limit_or_default(),
            ),
            r.total == self@.deals_for(*caller, filter).len(),
            r.offset == pagination.offset_or_default(),
            r.limit == pagination.limit_or_default(),
            !self@.may_list_deals(*caller) ==> r.items@.len() == 0 && r.total == 0,
            !self@.has_permission(*caller, AdminPermission::ViewAllDeals) ==> forall|i: int|
                0 <= i < r.items@.len() ==> (#[trigger] r.items@[i]).owner_id == Some(*caller),
    {
        let view_all = self.has_permission(caller, &AdminPermission::ViewAllDeals);
        let view_own = self.has_permission(caller, &AdminPermission::ViewOwnDeals);
        let offset: u64 = match pagination.offset {
            Some(o) => o,
            None => 0,
        };
        let limit: u64 = match pagination.limit {
            Some(l) => l,
            None => 50,
        };
        if !view_all && !view_own {
            return PaginatedResponse { items: Vec::new(), total: 0, offset, limit };
        }
        let ghost pred = deal_listed(*caller, view_all, filter);
        let ghost all = ascending_values(self@.deals);
        let keys = ascending_key_list(&self.deals);
        let mut items: Vec<Deal> = Vec::new();
        let mut total: u64 = 0;
        let mut i: usize = 0;
        proof {
            lemma_filter_none(all.take(0), pred);
            assert(all.len() == keys@.len());
        }
        while i < keys.len()
            invariant
                self.wf(),
                keys@ == ascending_keys(self@.deals.dom()),
                lists_ascending(keys@, self@.deals.dom()),
                all == ascending_values(self@.deals),
                all.len() == keys@.len(),
                pred == deal_listed(*caller, view_all, filter),
                i <= keys@.len(),
                total == all.take(i as int).filter(pred).len(),
                total <= i,
                items@ == page(all.take(i as int).filter(pred), offset, limit),
            decreases keys@.len() - i,
        {
            let key: u64 = keys[i];
            proof {
                assert(keys@.contains(key));
                assert(self@.deals.dom().contains(key));
                lemma_filter_step(all, pred, i as int);
                lemma_page_push(all.take(i as int).filter(pred), all[i as int], offset, limit);
            }
            match self.deals.get(&key) {
                Some(d) => {
                    let visible: bool = view_all || d.owner_id == Some(*caller);
                    if visible && passes_deal_filter(d, &filter) {
                        if total >= offset && (items.len() as u64) < limit {
                            items.push(d.clone());
                        }
                        total = total + 1;
                    }
                },
                None => {},
            }
            i += 1;
        }
        proof {
            assert(all.take(all.len() as int) =~= all);
            lemma_filter_members(all, pred);
            let listed = all.filter(pred);
            let shown = page(listed, offset, limit);
            assert forall|j: int| 0 <= j < shown.len() implies pred(#[trigger] shown[j]) by {
                if offset < listed.len() {
                    assert(shown[j] == listed[j + offset]);
                }
            }
        }
        PaginatedResponse { items, total, offset, limit }
    }
}

} // verus!
