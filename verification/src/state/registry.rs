//! Controllers, admins, and the trusted peer service of each role.

use vstd::prelude::*;
use crate::invariants::lemma_same_records;
use crate::principal::Principal;
use crate::seqs::{lemma_filter_none, lemma_filter_step};
use crate::sorted_map::{ascending, position, SortKey};
use crate::state::{holds_principal, State, StateView};

verus! {

/// Whether `list` holds the roles of `roles` and their services, each once,
/// in the order of the roles.
pub open spec fn lists_roles(
    list: Seq<(String, Principal)>,
    roles: Map<Seq<char>, Principal>,
) -> bool {
    &&& ascending(list)
    &&& list.len() == roles.len()
    &&& forall|i: int|
        0 <= i < list.len() ==> roles.contains_key(#[trigger] list[i].0@) && roles[list[i].0@]
            == list[i].1
}

impl State {
    /// Whether `principal` is a controller.
    pub fn is_controller(&self, principal: &Principal) -> (r: bool)
        ensures
            r == self@.is_controller(*principal),
    {
        holds_principal(&self.controllers, principal)
    }

    /// Whether `principal` is an admin: listed as one, or a controller.
    pub fn is_admin(&self, principal: &Principal) -> (r: bool)
        ensures
            r == self@.is_admin(*principal),
    {
        holds_principal(&self.admins, principal) || holds_principal(&self.controllers, principal)
    }

    /// The controllers.
    pub fn controllers(&self) -> (r: &Vec<Principal>)
        ensures
            r@ == self@.controllers,
    {
        &self.controllers
    }

    /// The admins, in the order in which they were added.
    pub fn admins(&self) -> (r: &Vec<Principal>)
        ensures
            r@ == self@.admins,
    {
        &self.admins
    }

    /// Replaces the controllers.
    pub fn set_controllers(&mut self, controllers: Vec<Principal>)
        requires
            old(self).wf(),
        ensures
            final(self).wf(),
            final(self)@ == (StateView { controllers: controllers@, ..old(self)@ }),
            old(self)@.consistent() ==> final(self)@.consistent(),
            old(self)@.consistent() && old(self)@.contacts_indexed()
                ==> final(self)@.contacts_indexed(),
    {
        self.controllers = controllers;
    }

    /// Replaces the admins.
    pub fn set_admins(&mut self, admins: Vec<Principal>)
        requires
            old(self).wf(),
        ensures
            final(self).wf(),
            final(self)@ == (StateView { admins: admins@, ..old(self)@ }),
            old(self)@.consistent() ==> final(self)@.consistent(),
            old(self)@.consistent() && old(self)@.contacts_indexed()
                ==> final(self)@.contacts_indexed(),
    {
        self.admins = admins;
    }

    /// Makes `principal` an admin, unless it is listed as one already.
    pub fn add_admin(&mut self, principal: Principal)
        requires
            old(self).wf(),
        ensures
            final(self).wf(),
            final(self)@ == old(self)@.with_admin(principal),
            old(self)@.consistent() ==> final(self)@.consistent(),
            old(self)@.consistent() && old(self)@.contacts_indexed()
                ==> final(self)@.contacts_indexed(),
    {
        if !holds_principal(&self.admins, &principal) {
            self.admins.push(principal);
        }
        proof {
            if old(self)@.consistent() {
                lemma_same_records(old(self)@, self@);
            }
        }
    }

    /// Strikes `principal` from the list of admins.
    pub fn remove_admin(&mut self, principal: &Principal)
        requires
            old(self).wf(),
        ensures
            final(self).wf(),
            final(self)@ == (StateView {
                admins: old(self)@.admins.filter(|p: Principal| p != *principal),
                ..old(self)@
            }),
            old(self)@.consistent() ==> final(self)@.consistent(),
            old(self)@.consistent() && old(self)@.contacts_indexed()
                ==> final(self)@.contacts_indexed(),
    {
        let ghost before = self.admins@;
        let ghost keep = |p: Principal| p != *principal;
        let mut kept: Vec<Principal> = Vec::new();
        let mut i: usize = 0;
        proof {
            lemma_filter_none(before.take(0), keep);
        }
        while i < self.admins.len()
            invariant
                self.admins@ == before,
                i <= before.len(),
                keep == |p: Principal| p != *principal,
                kept@ == before.take(i as int).filter(keep),
            decreases before.len() - i,
        {
            proof {
                lemma_filter_step(before, keep, i as int);
            }
            if self.admins[i] != *principal {
                kept.push(self.admins[i]);
            }
            i += 1;
        }
        proof {
            assert(before.take(before.len() as int) =~= before);
        }
        self.admins = kept;
    }

    /// Makes `canister_id` the trusted service of `role`, in place of any other.
    pub fn register_authorized_canister(&mut self, role: String, canister_id: Principal)
        requires
            old(self).wf(),
        ensures
            final(self).wf(),
            final(self)@ == (StateView {
                authorized_canisters: old(self)@.authorized_canisters.insert(role@, canister_id),
                ..old(self)@
            }),
            old(self)@.consistent() ==> final(self)@.consistent(),
            old(self)@.consistent() && old(self)@.contacts_indexed()
                ==> final(self)@.contacts_indexed(),
    {
        self.authorized_canisters.insert(role, canister_id);
    }

    /// Leaves `role` without a trusted service.
    pub fn unregister_authorized_canister(&mut self, role: &str)
        requires
            old(self).wf(),
        ensures
            final(self).wf(),
            final(self)@ == (StateView {
                authorized_canisters: old(self)@.authorized_canisters.remove(role@),
                ..old(self)@
            }),
            old(self)@.consistent() ==> final(self)@.consistent(),
            old(self)@.consistent() && old(self)@.contacts_indexed()
                ==> final(self)@.contacts_indexed(),
    {
        let key = role.to_string();
        self.authorized_canisters.remove(&key);
    }

    /// Whether `principal` is the trusted service of `role`.
    pub fn is_authorized_canister(&self, role: &str, principal: &Principal) -> (r: bool)
        requires
            self.wf(),
        ensures
            r == (self@.authorized_canisters.contains_key(role@) && self@.authorized_canisters[role@]
                == *principal),
    {
        let key = role.to_string();
        match self.authorized_canisters.get(&key) {
            Some(expected) => *expected == *principal,
            None => false,
        }
    }

    /// Whether `principal` is the trusted service of any role.
    pub fn is_any_authorized_canister(&self, principal: &Principal) -> (r: bool)
        requires
            self.wf(),
        ensures
            r == self@.authorized_canisters.contains_value(*principal),
    {
        let n: usize = self.authorized_canisters.len();
        let mut i: usize = 0;
        proof {
            self.authorized_canisters.lemma_entries();
        }
        while i < n
            invariant
                self.wf(),
                n == self.authorized_canisters.entries().len(),
                i <= n,
                forall|j: int|
                    0 <= j < i ==> (#[trigger] self.authorized_canisters.entries()[j]).1
                        != *principal,
            decreases n - i,
        {
            if *self.authorized_canisters.value_at(i) == *principal {
                proof {
                    self.authorized_canisters.lemma_entries();
                    let k = self.authorized_canisters.entries()[i as int].0@;
                    assert(self@.authorized_canisters.dom().contains(k));
                }
                return true;
            }
            i += 1;
        }
        proof {
            self.authorized_canisters.lemma_entries();
            if self@.authorized_canisters.contains_value(*principal) {
                let k = choose|k: Seq<char>| #[trigger]
                    self@.authorized_canisters.dom().contains(k) && self@.authorized_canisters[k]
                        == *principal;
                assert(self@.authorized_canisters.contains_key(k));
                let p = position(self.authorized_canisters.entries(), k);
                assert(self.authorized_canisters.entries()[p].1 == *principal);
            }
        }
        false
    }

    /// The roles and their trusted services, in the order of the roles.
    pub fn get_authorized_canisters(&self) -> (r: Vec<(String, Principal)>)
        requires
            self.wf(),
        ensures
            lists_roles(r@, self@.authorized_canisters),
    {
        let n: usize = self.authorized_canisters.len();
        let mut out: Vec<(String, Principal)> = Vec::new();
        let mut i: usize = 0;
        while i < n
            invariant
                n == self.authorized_canisters.entries().len(),
                i <= n,
                out@.len() == i,
                forall|j: int|
                    0 <= j < i ==> #[trigger] out@[j] == self.authorized_canisters.entries()[j],
            decreases n - i,
        {
            out.push((self.authorized_canisters.key_at(i).clone(), *self.authorized_canisters.value_at(i)));
            i += 1;
        }
        proof {
            self.authorized_canisters.lemma_entries();
            assert(out@ =~= self.authorized_canisters.entries());
        }
        out
    }
}

} // verus!
