//! The operations of the backend, one for each kind of call: who may make
//! the call is decided first, then the store is read or changed, and a
//! change is written to the audit log.
//!
//! The caller's identity and the time come from outside.

use vstd::prelude::*;
use crate::copies::copy_list;
use crate::details::{json_text, DetailValue};
use crate::principal::Principal;
use crate::state::{holds_principal, State, StateView};
use crate::state::logs::is_audit_entry;
use crate::state::snapshot::{is_snapshot_of, restored, StableState};
use crate::text::join;
use crate::types::{AdminPermission, Timestamp};

pub mod access;
pub mod contacts;
pub mod deals;
pub mod records;

verus! {

/// What a call that only an admin may make is refused with.
pub open spec fn admin_required() -> Seq<char> {
    "Unauthorized: Admin access required"@
}

/// What a call that only a controller may make is refused with.
pub open spec fn controller_required() -> Seq<char> {
    "Unauthorized: Only controllers can perform this action"@
}

/// What a call that only the service of `role` may make is refused with.
pub open spec fn canister_required(role: Seq<char>) -> Seq<char> {
    "Unauthorized: Expected "@ + role + " canister"@
}

/// What a call that only an admin or a trusted service may make is refused with.
pub open spec fn admin_or_canister_required() -> Seq<char> {
    "Unauthorized: Requires admin or authorized canister access"@
}

/// Whether `r` refuses the call with `message`.
pub open spec fn refused<T>(r: Result<T, String>, message: Seq<char>) -> bool {
    r is Err && r->Err_0@ == message
}

/// The rule of ownership and permission: the caller may act on a record
/// with the right to act on all records, or with the right to act on its
/// own records if the record is its own.
pub open spec fn may_act(
    v: StateView,
    caller: Principal,
    on_all: AdminPermission,
    on_own: AdminPermission,
    owner: Option<Principal>,
) -> bool {
    v.has_permission(caller, on_all) || (v.has_permission(caller, on_own) && owner == Some(caller))
}

/// Whether `after` is `changed` with one entry more in the audit log: the
/// entry of `action` by `caller` at `now` on the given target, with the
/// given fields as its details.
pub open spec fn audited(
    changed: StateView,
    after: StateView,
    now: Timestamp,
    caller: Principal,
    action: Seq<char>,
    target_type: Seq<char>,
    target_id: Seq<char>,
    fields: Map<Seq<char>, DetailValue>,
) -> bool {
    &&& after.audit_log.len() > 0
    &&& after == changed.with_audit_entry(after.audit_log.last())
    &&& is_audit_entry(
        after.audit_log.last(),
        changed.next_audit_log_id,
        now,
        caller,
        action,
        target_type,
        target_id,
    )
    &&& after.audit_log.last().details matches Some(d) && d@ == json_text(fields)
}

/// Applies the rule of ownership and permission.
pub fn allowed(
    state: &State,
    caller: &Principal,
    on_all: AdminPermission,
    on_own: AdminPermission,
    owner: Option<Principal>,
) -> (r: bool)
    requires
        state.wf(),
    ensures
        r == may_act(state@, *caller, on_all, on_own, owner),
{
    if state.has_permission(caller, &on_all) {
        return true;
    }
    state.has_permission(caller, &on_own) && owner == Some(*caller)
}

/// Lets an admin pass.
pub fn require_admin(state: &State, caller: &Principal) -> (r: Result<(), String>)
    ensures
        r is Ok <==> state@.is_admin(*caller),
        r is Err ==> refused(r, admin_required()),
{
    if state.is_admin(caller) {
        Ok(())
    } else {
        Err("Unauthorized: Admin access required".to_string())
    }
}

/// Lets the trusted service of `role` pass.
pub fn require_authorized_canister(state: &State, role: &str, caller: &Principal) -> (r: Result<
    (),
    String,
>)
    requires
        state.wf(),
    ensures
        r is Ok <==> state@.authorized_canisters.contains_key(role@)
            && state@.authorized_canisters[role@] == *caller,
        r is Err ==> refused(r, canister_required(role@)),
{
    if state.is_authorized_canister(role, caller) {
        Ok(())
    } else {
        let mut message = join("Unauthorized: Expected ", role);
        message.append(" canister");
        Err(message)
    }
}

/// The texts of a list of roles.
pub open spec fn role_texts(roles: Seq<&str>) -> Seq<Seq<char>> {
    roles.map_values(|r: &str| r@)
}

/// Whether `caller` is the trusted service of one of `roles`.
pub open spec fn serves_one_of(v: StateView, roles: Seq<Seq<char>>, caller: Principal) -> bool {
    exists|i: int|
        0 <= i < roles.len() && v.authorized_canisters.contains_key(#[trigger] roles[i])
            && v.authorized_canisters[roles[i]] == caller
}

/// Lets an admin pass, and the trusted service of one of `roles`.
pub fn require_authorized_canister_or_admin(
    state: &State,
    roles: &[&str],
    caller: &Principal,
) -> (r: Result<(), String>)
    requires
        state.wf(),
    ensures
        r is Ok <==> state@.is_admin(*caller) || serves_one_of(state@, role_texts(roles@), *caller),
        r is Err ==> refused(r, admin_or_canister_required()),
{
    if state.is_admin(caller) {
        return Ok(());
    }
    let ghost texts = role_texts(roles@);
    let mut i: usize = 0;
    while i < roles.len()
        invariant
            state.wf(),
            texts == role_texts(roles@),
            i <= roles@.len(),
            forall|j: int|
                0 <= j < i ==> !(state@.authorized_canisters.contains_key(#[trigger] texts[j])
                    && state@.authorized_canisters[texts[j]] == *caller),
        decreases roles@.len() - i,
    {
        if state.is_authorized_canister(roles[i], caller) {
            assert(texts[i as int] == roles@[i as int]@);
            return Ok(());
        }
        assert(texts[i as int] == roles@[i as int]@);
        i += 1;
    }
    Err("Unauthorized: Requires admin or authorized canister access".to_string())
}

/// What is to be done before a call that only a controller may make.
#[derive(Clone, Copy, Debug, PartialEq, Eq, Structural)]
pub enum ControllerCheck {
    /// The caller is known as a controller: the call may go on.
    Known,
    /// The caller is not known as a controller: the platform is to be asked
    /// for its list of controllers.
    AskPlatform,
}

/// Decides whether the platform must be asked before a call that only a
/// controller may make.
pub fn check_controller(state: &State, caller: &Principal) -> (r: ControllerCheck)
    ensures
        r == (if state@.is_controller(*caller) {
            ControllerCheck::Known
        } else {
            ControllerCheck::AskPlatform
        }),
{
    if state.is_controller(caller) {
        ControllerCheck::Known
    } else {
        ControllerCheck::AskPlatform
    }
}

/// Takes in the platform's list of controllers, asked for because `caller`
/// was not known as one. If the list names the caller it replaces the
/// store's list; else the call is refused and nothing changes.
pub fn confirm_controller(state: &mut State, caller: &Principal, platform: Vec<Principal>) -> (r:
    Result<(), String>)
    requires
        old(state).wf(),
    ensures
        final(state).wf(),
        r is Ok <==> platform@.contains(*caller),
        r is Ok ==> final(state)@ == (StateView { controllers: platform@, ..old(state)@ }),
        r is Err ==> refused(r, controller_required()) && final(state)@ == old(state)@,
        old(state)@.consistent() ==> final(state)@.consistent(),
        old(state)@.consistent() && old(state)@.contacts_indexed()
            ==> final(state)@.contacts_indexed(),
{
    if !holds_principal(&platform, caller) {
        return Err("Unauthorized: Only controllers can perform this action".to_string());
    }
    state.set_controllers(platform);
    Ok(())
}

/// Lets a controller pass.
pub fn require_controller(state: &State, caller: &Principal) -> (r: Result<(), String>)
    ensures
        r is Ok <==> state@.is_controller(*caller),
        r is Err ==> refused(r, controller_required()),
{
    if state.is_controller(caller) {
        Ok(())
    } else {
        Err("Unauthorized: Only controllers can perform this action".to_string())
    }
}

/// The store of a backend that starts: the given controllers, or else the
/// caller, are its controllers and its admins.
pub open spec fn initial(controllers: Option<Vec<Principal>>, caller: Principal) -> StateView {
    let trusted = match controllers {
        Some(list) => list@,
        None => seq![caller],
    };
    StateView { controllers: trusted, admins: trusted, ..StateView::empty() }
}

/// Starts the backend.
pub fn init(controllers: Option<Vec<Principal>>, caller: Principal) -> (r: State)
    ensures
        r.wf(),
        r@ == initial(controllers, caller),
        r@.consistent(),
        r@.contacts_indexed(),
{
    let trusted: Vec<Principal> = match controllers {
        Some(list) => list,
        None => {
            let mut list: Vec<Principal> = Vec::new();
            list.push(caller);
            list
        },
    };
    let mut state = State::new();
    let admins = copy_list(&trusted);
    state.set_controllers(trusted);
    state.set_admins(admins);
    state
}

/// What is saved before the process is replaced.
pub fn pre_upgrade(state: &State) -> (r: StableState)
    requires
        state.wf(),
    ensures
        is_snapshot_of(r@, state@),
{
    state.snapshot()
}

/// The store after the process has been replaced: what was saved, restored,
/// or the empty store where nothing was saved; in either case with every
/// record without an owner given to the first admin.
///
/// What was saved from a consistent store comes back as a consistent store.
pub fn post_upgrade(saved: Option<StableState>) -> (r: State)
    ensures
        r.wf(),
        r@ == (match saved {
            Some(s) => restored(s@).migrated(),
            None => StateView::empty().migrated(),
        }),
        saved is None ==> r@ == StateView::empty() && r@.consistent() && r@.contacts_indexed(),
        saved matches Some(s) ==> forall|v: StateView|
            #![trigger is_snapshot_of(s@, v)]
            is_snapshot_of(s@, v) && v.consistent() && v.contacts_indexed() ==> r@.consistent()
                && r@.contacts_indexed(),
{
    let mut state = match saved {
        Some(s) => State::restore(s),
        None => State::new(),
    };
    state.migrate_ownership();
    state
}

/// The answer to a check of health.
pub fn health() -> (r: String)
    ensures
        r@ == "ok"@,
{
    "ok".to_string()
}

} // verus!
