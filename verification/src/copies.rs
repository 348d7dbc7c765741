//! Exact copies of values and of lists.

use vstd::prelude::*;
use crate::principal::Principal;
use crate::types::{
    AdminPermission, AuditLogEntry, Contact, Deal, MetricsSnapshot, Transaction, UserActivity,
};

verus! {

/// A value of which an exact copy can be made.
pub trait Duplicate: Sized {
    /// A copy that equals `self`.
    fn duplicate(&self) -> (r: Self)
        ensures
            r == *self,
    ;
}

impl Duplicate for u64 {
    fn duplicate(&self) -> (r: u64) {
        *self
    }
}

impl Duplicate for Principal {
    fn duplicate(&self) -> (r: Principal) {
        *self
    }
}

impl Duplicate for AdminPermission {
    fn duplicate(&self) -> (r: AdminPermission) {
        *self
    }
}

impl Duplicate for MetricsSnapshot {
    fn duplicate(&self) -> (r: MetricsSnapshot) {
        *self
    }
}

impl Duplicate for Contact {
    fn duplicate(&self) -> (r: Contact) {
        self.clone()
    }
}

impl Duplicate for Deal {
    fn duplicate(&self) -> (r: Deal) {
        self.clone()
    }
}

impl Duplicate for Transaction {
    fn duplicate(&self) -> (r: Transaction) {
        self.clone()
    }
}

impl Duplicate for UserActivity {
    fn duplicate(&self) -> (r: UserActivity) {
        self.clone()
    }
}

impl Duplicate for AuditLogEntry {
    fn duplicate(&self) -> (r: AuditLogEntry) {
        self.clone()
    }
}

/// A copy of a list.
pub fn copy_list<T: Duplicate>(list: &Vec<T>) -> (r: Vec<T>)
    ensures
        r@ == list@,
{
    let mut r: Vec<T> = Vec::new();
    let mut i: usize = 0;
    while i < list.len()
        invariant
            i <= list@.len(),
            r@ == list@.take(i as int),
        decreases list@.len() - i,
    {
        r.push(list[i].duplicate());
        i += 1;
        assert(r@ =~= list@.take(i as int));
    }
    assert(list@.take(list@.len() as int) =~= list@);
    r
}

} // verus!
