//! Calls on admins, trusted services, permissions and the audit log.

use vstd::prelude::*;
use crate::api::{admin_required, controller_required, refused, require_admin, require_controller};
use crate::copies::copy_list;
use crate::principal::Principal;
use crate::state::{State, StateView};
use crate::state::registry::lists_roles;
use crate::types::{AdminPermission, AuditLogEntry};

verus! {

/// What a look at another identity's rights is refused with.
pub open spec fn others_permissions_refused() -> Seq<char> {
    "Unauthorized: Only controllers can view other admins' permissions"@
}

/// What a look at the rights of an identity that is no admin is refused with.
pub open spec fn target_not_admin() -> Seq<char> {
    "Target is not an admin"@
}

/// What a query of the audit log without the right to it is refused with.
pub open spec fn audit_permission_required() -> Seq<char> {
    "Unauthorized: ViewAuditLogs permission required"@
}

/// The store after each of `admins` has been given the rights of a new admin.
pub open spec fn defaults_for_all(v: StateView, admins: Seq<Principal>) -> StateView
    decreases admins.len(),
{
    if admins.len() == 0 {
        v
    } else {
        defaults_for_all(v, admins.drop_last()).grant_defaults(admins.last())
    }
}

/// Makes `principal` an admin. Only a controller may.
pub fn add_admin(state: &mut State, caller: &Principal, principal: Principal) -> (r: Result<
    (),
    String,
>)
    requires
        old(state).wf(),
    ensures
        final(state).wf(),
        r is Ok <==> old(state)@.is_controller(*caller),
        r is Ok ==> final(state)@ == old(state)@.with_admin(principal),
        r is Err ==> refused(r, controller_required()) && final(state)@ == old(state)@,
        old(state)@.consistent() ==> final(state)@.consistent(),
        old(state)@.consistent() && old(state)@.contacts_indexed()
            ==> final(state)@.contacts_indexed(),
{
    require_controller(state, caller)?;
    state.add_admin(principal);
    Ok(())
}

/// Strikes `principal` from the admins. Only a controller may.
pub fn remove_admin(state: &mut State, caller: &Principal, principal: Principal) -> (r: Result<
    (),
    String,
>)
    requires
        old(state).wf(),
    ensures
        final(state).wf(),
        r is Ok <==> old(state)@.is_controller(*caller),
        r is Ok ==> final(state)@ == (StateView {
            admins: old(state)@.admins.filter(|p: Principal| p != principal),
            ..old(state)@
        }),
        r is Err ==> refused(r, controller_required()) && final(state)@ == old(state)@,
        old(state)@.consistent() ==> final(state)@.consistent(),
        old(state)@.consistent() && old(state)@.contacts_indexed()
            ==> final(state)@.contacts_indexed(),
{
    require_controller(state, caller)?;
    state.remove_admin(&principal);
    Ok(())
}

/// The admins. Only an admin may ask.
pub fn get_admins(state: &State, caller: &Principal) -> (r: Result<Vec<Principal>, String>)
    ensures
        r is Ok <==> state@.is_admin(*caller),
        r is Ok ==> r->Ok_0@ == state@.admins,
        r is Err ==> refused(r, admin_required()),
{
    require_admin(state, caller)?;
    Ok(copy_list(state.admins()))
}

/// Makes `canister_id` the trusted service of `role`. Only a controller may.
pub fn register_authorized_canister(
    state: &mut State,
    caller: &Principal,
    role: String,
    canister_id: Principal,
) -> (r: Result<(), String>)
    requires
        old(state).wf(),
    ensures
        final(state).wf(),
        r is Ok <==> old(state)@.is_controller(*caller),
        r is Ok ==> final(state)@ == (StateView {
            authorized_canisters: old(state)@.authorized_canisters.insert(role@, canister_id),
            ..old(state)@
        }),
        r is Err ==> refused(r, controller_required()) && final(state)@ == old(state)@,
        old(state)@.consistent() ==> final(state)@.consistent(),
        old(state)@.consistent() && old(state)@.contacts_indexed()
            ==> final(state)@.contacts_indexed(),
{
    require_controller(state, caller)?;
    state.register_authorized_canister(role, canister_id);
    Ok(())
}

/// Leaves `role` without a trusted service. Only a controller may.
pub fn unregister_authorized_canister(state: &mut State, caller: &Principal, role: String) -> (r:
    Result<(), String>)
    requires
        old(state).wf(),
    ensures
        final(state).wf(),
        r is Ok <==> old(state)@.is_controller(*caller),
        r is Ok ==> final(state)@ == (StateView {
            authorized_canisters: old(state)@.authorized_canisters.remove(role@),
            ..old(state)@
        }),
        r is Err ==> refused(r, controller_required()) && final(state)@ == old(state)@,
        old(state)@.consistent() ==> final(state)@.consistent(),
        old(state)@.consistent() && old(state)@.contacts_indexed()
            ==> final(state)@.contacts_indexed(),
{
    require_controller(state, caller)?;
    state.unregister_authorized_canister(role.as_str());
    Ok(())
}

/// The roles and their trusted services. Only an admin may ask.
pub fn list_authorized_canisters(state: &State, caller: &Principal) -> (r: Result<
    Vec<(String, Principal)>,
    String,
>)
    requires
        state.wf(),
    ensures
        r is Ok <==> state@.is_admin(*caller),
        r is Ok ==> lists_roles(r->Ok_0@, state@.authorized_canisters),
        r is Err ==> refused(r, admin_required()),
{
    require_admin(state, caller)?;
    Ok(state.get_authorized_canisters())
}

/// Grants `permission` to `principal`. Only a controller may.
pub fn grant_permission(
    state: &mut State,
    caller: &Principal,
    principal: Principal,
    permission: AdminPermission,
) -> (r: Result<(), String>)
    requires
        old(state).wf(),
    ensures
        final(state).wf(),
        r is Ok <==> old(state)@.is_controller(*caller),
        r is Ok ==> final(state)@ == old(state)@.grant(principal, permission),
        r is Err ==> refused(r, controller_required()) && final(state)@ == old(state)@,
        old(state)@.consistent() ==> final(state)@.consistent(),
        old(state)@.consistent() && old(state)@.contacts_indexed()
            ==> final(state)@.contacts_indexed(),
{
    require_controller(state, caller)?;
    state.grant_permission(principal, permission);
    Ok(())
}

/// Takes `permission` from `principal`. Only a controller may.
pub fn revoke_permission(
    state: &mut State,
    caller: &Principal,
    principal: Principal,
    permission: AdminPermission,
) -> (r: Result<(), String>)
    requires
        old(state).wf(),
    ensures
        final(state).wf(),
        r is Ok <==> old(state)@.is_controller(*caller),
        r is Ok ==> final(state)@ == old(state)@.revoke(principal, permission),
        r is Err ==> refused(r, controller_required()) && final(state)@ == old(state)@,
        old(state)@.consistent() ==> final(state)@.consistent(),
        old(state)@.consistent() && old(state)@.contacts_indexed()
            ==> final(state)@.contacts_indexed(),
{
    require_controller(state, caller)?;
    state.revoke_permission(&principal, &permission);
    Ok(())
}

/// Whose rights a look at permissions is about: the named identity, or
/// else the caller.
pub open spec fn permissions_target(caller: Principal, principal: Option<Principal>) -> Principal {
    match principal {
        Some(p) => p,
        None => caller,
    }
}

/// What a look at permissions is refused with, if it is.
pub open spec fn permissions_refusal(
    v: StateView,
    caller: Principal,
    principal: Option<Principal>,
) -> Option<Seq<char>> {
    let target = permissions_target(caller, principal);
    if target != caller && !v.is_controller(caller) {
        Some(others_permissions_refused())
    } else if !v.is_admin(target) {
        Some(target_not_admin())
    } else {
        None
    }
}

/// The rights granted to `principal`, or to the caller where none is
/// named. An admin may look at its own rights, a controller at everybody's.
pub fn get_permissions(state: &State, caller: &Principal, principal: Option<Principal>) -> (r: Result<
    Vec<AdminPermission>,
    String,
>)
    requires
        state.wf(),
    ensures
        match permissions_refusal(state@, *caller, principal) {
            Some(message) => refused(r, message),
            None => r is Ok && r->Ok_0@ == state@.granted(permissions_target(*caller, principal)),
        },
{
    let target: Principal = match principal {
        Some(p) => p,
        None => *caller,
    };
    if target != *caller && !state.is_controller(caller) {
        return Err("Unauthorized: Only controllers can view other admins' permissions".to_string());
    }
    if !state.is_admin(&target) && !state.is_controller(&target) {
        return Err("Target is not an admin".to_string());
    }
    Ok(state.get_permissions(&target))
}

/// Gives every admin the rights of a new admin, and tells how many admins
/// there are. Only a controller may.
pub fn grant_default_permissions_to_all_admins(state: &mut State, caller: &Principal) -> (r: Result<
    u32,
    String,
>)
    requires
        old(state).wf(),
    ensures
        final(state).wf(),
        r is Ok <==> old(state)@.is_controller(*caller),
        r is Ok ==> final(state)@ == defaults_for_all(old(state)@, old(state)@.admins) && r->Ok_0
            == old(state)@.admins.len() % 0x1_0000_0000,
        r is Err ==> refused(r, controller_required()) && final(state)@ == old(state)@,
        old(state)@.consistent() ==> final(state)@.consistent(),
        old(state)@.consistent() && old(state)@.contacts_indexed()
            ==> final(state)@.contacts_indexed(),
{
    require_controller(state, caller)?;
    let admins = copy_list(state.admins());
    let mut i: usize = 0;
    proof {
        assert(admins@.take(0) =~= Seq::<Principal>::empty());
    }
    while i < admins.len()
        invariant
            state.wf(),
            admins@ == old(state)@.admins,
            i <= admins@.len(),
            state@ == defaults_for_all(old(state)@, admins@.take(i as int)),
            old(state)@.consistent() ==> state@.consistent(),
            old(state)@.consistent() && old(state)@.contacts_indexed() ==> state@.contacts_indexed(),
        decreases admins@.len() - i,
    {
        proof {
            assert(admins@.take(i + 1).drop_last() =~= admins@.take(i as int));
            assert(admins@.take(i + 1).last() == admins@[i as int]);
        }
        state.grant_default_permissions(admins[i]);
        i += 1;
    }
    proof {
        assert(admins@.take(admins@.len() as int) =~= admins@);
    }
    let count: u64 = (admins.len() as u64) % 0x1_0000_0000;
    Ok(count as u32)
}

/// What a query of the audit log is refused with, if it is.
pub open spec fn audit_refusal(v: StateView, caller: Principal) -> Option<Seq<char>> {
    if !v.is_admin(caller) {
        Some(admin_required())
    } else if !v.has_permission(caller, AdminPermission::ViewAuditLogs) {
        Some(audit_permission_required())
    } else {
        None
    }
}

/// The entries of the audit log that pass the filters, the newest first.
/// Only an admin with the right to see the audit log may ask.
pub fn get_audit_log(
    state: &State,
    caller: &Principal,
    action_filter: Option<String>,
    target_type_filter: Option<String>,
    actor_filter: Option<Principal>,
    limit: Option<u64>,
) -> (r: Result<Vec<AuditLogEntry>, String>)
    requires
        state.wf(),
    ensures
        match audit_refusal(state@, *caller) {
            Some(message) => refused(r, message),
            None => r is Ok && r->Ok_0@ == state@.audit_query(
                match action_filter {
                    Some(a) => Some(a@),
                    None => None,
                },
                match target_type_filter {
                    Some(t) => Some(t@),
                    None => None,
                },
                actor_filter,
                limit,
            ),
        },
{
    require_admin(state, caller)?;
    if !state.has_permission(caller, &AdminPermission::ViewAuditLogs) && !state.is_controller(caller) {
        return Err("Unauthorized: ViewAuditLogs permission required".to_string());
    }
    let action: Option<&str> = match &action_filter {
        Some(a) => Some(a.as_str()),
        None => None,
    };
    let target_type: Option<&str> = match &target_type_filter {
        Some(t) => Some(t.as_str()),
        None => None,
    };
    let actor: Option<&Principal> = match &actor_filter {
        Some(p) => Some(p),
        None => None,
    };
    Ok(state.get_audit_log(action, target_type, actor, limit))
}

} // verus!
