//! The rights granted to each identity.

use vstd::prelude::*;
use crate::copies::copy_list;
use crate::invariants::{lemma_grant, lemma_revoke};
use crate::principal::Principal;
use crate::seqs::{lemma_filter_none, lemma_filter_step};
use crate::state::{holds_principal, State, StateView};
use crate::types::AdminPermission;

verus! {

/// The test that every right but `permission` passes.
pub open spec fn other_than(permission: AdminPermission) -> spec_fn(AdminPermission) -> bool {
    |q: AdminPermission| q != permission
}

impl StateView {
    /// The store after `permission` has been granted to `p`: nothing changes
    /// where `p` has been granted it before.
    pub open spec fn grant(self, p: Principal, permission: AdminPermission) -> StateView {
        StateView {
            admin_permissions: self.admin_permissions.insert(
                p,
                if self.granted(p).contains(permission) {
                    self.granted(p)
                } else {
                    self.granted(p).push(permission)
                },
            ),
            ..self
        }
    }

    /// The store after `permission` has been taken from `p`.
    pub open spec fn revoke(self, p: Principal, permission: AdminPermission) -> StateView {
        if self.admin_permissions.contains_key(p) {
            StateView {
                admin_permissions: self.admin_permissions.insert(
                    p,
                    self.admin_permissions[p].filter(other_than(permission)),
                ),
                ..self
            }
        } else {
            self
        }
    }

    /// The store after `permission` has been granted to `p`, unless `p` holds
    /// it already, by grant or as a controller.
    pub open spec fn grant_missing(self, p: Principal, permission: AdminPermission) -> StateView {
        if self.has_permission(p, permission) {
            self
        } else {
            self.grant(p, permission)
        }
    }

    /// The store after `p` has been given the rights of a new admin.
    pub open spec fn grant_defaults(self, p: Principal) -> StateView {
        self.grant_missing(p, AdminPermission::ViewOwnContacts).grant_missing(
            p,
            AdminPermission::EditOwnContacts,
        ).grant_missing(p, AdminPermission::ViewOwnDeals).grant_missing(
            p,
            AdminPermission::EditOwnDeals,
        )
    }
}

/// Whether `list` holds `permission`.
pub fn holds_permission(list: &Vec<AdminPermission>, permission: &AdminPermission) -> (r: bool)
    ensures
        r == list@.contains(*permission),
{
    let mut i: usize = 0;
    while i < list.len()
        invariant
            i <= list@.len(),
            forall|j: int| 0 <= j < i ==> list@[j] != *permission,
        decreases list@.len() - i,
    {
        if list[i] == *permission {
            return true;
        }
        i += 1;
    }
    false
}

impl State {
    /// Whether `principal` holds `permission`. A controller holds every right.
    pub fn has_permission(&self, principal: &Principal, permission: &AdminPermission) -> (r: bool)
        requires
            self.wf(),
        ensures
            r == self@.has_permission(*principal, *permission),
    {
        if holds_principal(&self.controllers, principal) {
            return true;
        }
        match self.admin_permissions.get(principal) {
            Some(list) => holds_permission(list, permission),
            None => false,
        }
    }

    /// Grants `permission` to `principal`. Granting it twice is granting it once.
    pub fn grant_permission(&mut self, principal: Principal, permission: AdminPermission)
        requires
            old(self).wf(),
        ensures
            final(self).wf(),
            final(self)@ == old(self)@.grant(principal, permission),
            old(self)@.consistent() ==> final(self)@.consistent(),
            old(self)@.consistent() && old(self)@.contacts_indexed()
                ==> final(self)@.contacts_indexed(),
    {
        proof {
            if self@.consistent() {
                lemma_grant(self@, principal, permission);
            }
        }
        let ghost before = self.admin_permissions@;
        let mut list: Vec<AdminPermission> = match self.admin_permissions.remove(&principal) {
            Some(l) => l,
            None => Vec::new(),
        };
        if !holds_permission(&list, &permission) {
            list.push(permission);
        }
        self.admin_permissions.insert(principal, list);
        proof {
            assert(self.admin_permissions@ =~= before.insert(principal, list));
            assert(self@.admin_permissions =~= old(self)@.grant(principal, permission).admin_permissions);
        }
    }

    /// Takes `permission` from `principal`.
    pub fn revoke_permission(&mut self, principal: &Principal, permission: &AdminPermission)
        requires
            old(self).wf(),
        ensures
            final(self).wf(),
            final(self)@ == old(self)@.revoke(*principal, *permission),
            old(self)@.consistent() ==> final(self)@.consistent(),
            old(self)@.consistent() && old(self)@.contacts_indexed()
                ==> final(self)@.contacts_indexed(),
    {
        proof {
            if self@.consistent() {
                lemma_revoke(self@, *principal, *permission);
            }
        }
        let ghost before = self.admin_permissions@;
        match self.admin_permissions.remove(principal) {
            Some(list) => {
                let ghost keep = other_than(*permission);
                let mut kept: Vec<AdminPermission> = Vec::new();
                let mut i: usize = 0;
                proof {
                    lemma_filter_none(list@.take(0), keep);
                }
                while i < list.len()
                    invariant
                        i <= list@.len(),
                        keep == other_than(*permission),
                        kept@ == list@.take(i as int).filter(keep),
                    decreases list@.len() - i,
                {
                    proof {
                        lemma_filter_step(list@, keep, i as int);
                    }
                    if list[i] != *permission {
                        kept.push(list[i]);
                    }
                    i += 1;
                }
                proof {
                    assert(list@.take(list@.len() as int) =~= list@);
                }
                self.admin_permissions.insert(*principal, kept);
                proof {
                    assert(self.admin_permissions@ =~= before.insert(*principal, kept));
                    assert(before.contains_key(*principal));
                    assert(self@.admin_permissions =~= old(self)@.revoke(
                        *principal,
                        *permission,
                    ).admin_permissions);
                }
            },
            None => {
                proof {
                    assert(self.admin_permissions@ =~= before);
                }
            },
        }
    }

    /// The rights granted to `principal` by name, in the order of the grants.
    pub fn get_permissions(&self, principal: &Principal) -> (r: Vec<AdminPermission>)
        requires
            self.wf(),
        ensures
            r@ == self@.granted(*principal),
    {
        match self.admin_permissions.get(principal) {
            Some(list) => copy_list(list),
            None => Vec::new(),
        }
    }

    /// Gives `principal` the rights of a new admin, to see and to change its
    /// own contacts and deals, as far as it does not hold them yet.
    pub fn grant_default_permissions(&mut self, principal: Principal)
        requires
            old(self).wf(),
        ensures
            final(self).wf(),
            final(self)@ == old(self)@.grant_defaults(principal),
            old(self)@.consistent() ==> final(self)@.consistent(),
            old(self)@.consistent() && old(self)@.contacts_indexed()
                ==> final(self)@.contacts_indexed(),
    {
        if !self.has_permission(&principal, &AdminPermission::ViewOwnContacts) {
            self.grant_permission(principal, AdminPermission::ViewOwnContacts);
        }
        if !self.has_permission(&principal, &AdminPermission::EditOwnContacts) {
            self.grant_permission(principal, AdminPermission::EditOwnContacts);
        }
        if !self.has_permission(&principal, &AdminPermission::ViewOwnDeals) {
            self.grant_permission(principal, AdminPermission::ViewOwnDeals);
        }
        if !self.has_permission(&principal, &AdminPermission::EditOwnDeals) {
            self.grant_permission(principal, AdminPermission::EditOwnDeals);
        }
    }
}

} // verus!
