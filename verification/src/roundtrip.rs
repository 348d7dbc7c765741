//! A snapshot, restored, is the store again: every record and every index.

use vstd::prelude::*;
use crate::ordered::{
    ascending_keys, ascending_pairs, lemma_ascending_keys, lemma_one_ascending_list, map_of,
    strictly_ascending,
};
use crate::principal::Principal;
use crate::state::StateView;
use crate::state::snapshot::{
    deal_index, email_index, is_snapshot_of, listed_deals, lists_by_principal, lists_by_text,
    restored, user_index, StableView,
};
use crate::text::{lemma_text_order, lowercase_text};
use crate::types::{Contact, ContactId, Deal, DealId};

verus! {

/// The map of a list in which no key stands twice holds the list's entries.
pub proof fn lemma_map_of_distinct<K, V>(pairs: Seq<(K, V)>)
    requires
        forall|i: int, j: int| 0 <= i < j < pairs.len() ==> pairs[i].0 != pairs[j].0,
    ensures
        forall|k: K|
            map_of(pairs).contains_key(k) <==> exists|i: int|
                0 <= i < pairs.len() && (#[trigger] pairs[i]).0 == k,
        forall|i: int|
            0 <= i < pairs.len() ==> map_of(pairs).contains_key((#[trigger] pairs[i]).0) && map_of(
                pairs,
            )[pairs[i].0] == pairs[i].1,
    decreases pairs.len(),
{
    if pairs.len() > 0 {
        let rest = pairs.drop_last();
        assert forall|i: int, j: int| 0 <= i < j < rest.len() implies rest[i].0 != rest[j].0 by {
            assert(rest[i] == pairs[i]);
            assert(rest[j] == pairs[j]);
        }
        lemma_map_of_distinct(rest);
        let last = pairs.last();
        assert forall|k: K|
            map_of(pairs).contains_key(k) <==> exists|i: int|
                0 <= i < pairs.len() && (#[trigger] pairs[i]).0 == k by {
            if map_of(pairs).contains_key(k) {
                if k == last.0 {
                    assert(pairs[pairs.len() - 1].0 == k);
                } else {
                    assert(map_of(rest).contains_key(k));
                    let i = choose|i: int| 0 <= i < rest.len() && (#[trigger] rest[i]).0 == k;
                    assert(pairs[i].0 == k);
                }
            }
            if exists|i: int| 0 <= i < pairs.len() && (#[trigger] pairs[i]).0 == k {
                let i = choose|i: int| 0 <= i < pairs.len() && (#[trigger] pairs[i]).0 == k;
                if i < rest.len() {
                    assert(rest[i].0 == k);
                }
            }
        }
        assert forall|i: int| 0 <= i < pairs.len() implies map_of(pairs).contains_key(
            (#[trigger] pairs[i]).0,
        ) && map_of(pairs)[pairs[i].0] == pairs[i].1 by {
            if i < rest.len() {
                assert(rest[i] == pairs[i]);
                assert(pairs[i].0 != pairs[pairs.len() - 1].0);
            }
        }
    }
}

/// The ascending list of a map's keys and values stands for the map.
pub proof fn lemma_map_of_pairs<V>(m: Map<u64, V>)
    ensures
        map_of(ascending_pairs(m)) == m,
        forall|i: int, j: int|
            0 <= i < j < ascending_pairs(m).len() ==> (#[trigger] ascending_pairs(m)[i]).0 < (
            #[trigger] ascending_pairs(m)[j]).0,
        forall|i: int|
            0 <= i < ascending_pairs(m).len() ==> m.contains_key((#[trigger] ascending_pairs(m)[i]).0)
                && m[ascending_pairs(m)[i].0] == ascending_pairs(m)[i].1,
        forall|k: u64| #[trigger]
            m.contains_key(k) ==> exists|i: int|
                0 <= i < ascending_pairs(m).len() && (#[trigger] ascending_pairs(m)[i]).0 == k,
{
    let keys = ascending_keys(m.dom());
    let pairs = ascending_pairs(m);
    lemma_ascending_keys(m.dom());
    assert forall|i: int, j: int| 0 <= i < j < pairs.len() implies (#[trigger] pairs[i]).0 < (
    #[trigger] pairs[j]).0 by {
        assert(keys[i] < keys[j]);
    }
    assert forall|i: int| 0 <= i < pairs.len() implies m.contains_key((#[trigger] pairs[i]).0)
        && m[pairs[i].0] == pairs[i].1 by {
        assert(keys.contains(keys[i]));
    }
    assert forall|k: u64| #[trigger] m.contains_key(k) implies exists|i: int|
        0 <= i < pairs.len() && (#[trigger] pairs[i]).0 == k by {
        assert(keys.contains(k));
        let i = choose|i: int| 0 <= i < keys.len() && keys[i] == k;
        assert(pairs[i].0 == k);
    }
    lemma_map_of_distinct(pairs);
    assert forall|k: u64| map_of(pairs).contains_key(k) == m.contains_key(k) by {
        if map_of(pairs).contains_key(k) {
            let i = choose|i: int| 0 <= i < pairs.len() && (#[trigger] pairs[i]).0 == k;
            assert(m.contains_key(pairs[i].0));
        }
    }
    assert forall|k: u64| map_of(pairs).contains_key(k) implies map_of(pairs)[k] == m[k] by {
        let i = choose|i: int| 0 <= i < pairs.len() && (#[trigger] pairs[i]).0 == k;
        assert(map_of(pairs)[pairs[i].0] == pairs[i].1);
    }
    assert(map_of(pairs) =~= m);
}

/// A list of a map's entries in the order of texts stands for the map.
pub proof fn lemma_map_of_text_list<V>(list: Seq<(Seq<char>, V)>, m: Map<Seq<char>, V>)
    requires
        lists_by_text(list, m),
    ensures
        map_of(list) == m,
{
    assert forall|i: int, j: int| 0 <= i < j < list.len() implies list[i].0 != list[j].0 by {
        lemma_text_order(list[i].0, list[j].0, list[j].0);
    }
    lemma_map_of_distinct(list);
    assert forall|k: Seq<char>| map_of(list).contains_key(k) == m.contains_key(k) by {
        if map_of(list).contains_key(k) {
            let i = choose|i: int| 0 <= i < list.len() && (#[trigger] list[i]).0 == k;
            assert(m.contains_key(list[i].0));
        }
        if m.contains_key(k) {
            let i = choose|i: int| 0 <= i < list.len() && (#[trigger] list[i]).0 == k;
        }
    }
    assert forall|k: Seq<char>| map_of(list).contains_key(k) implies map_of(list)[k] == m[k] by {
        let i = choose|i: int| 0 <= i < list.len() && (#[trigger] list[i]).0 == k;
        assert(map_of(list)[list[i].0] == list[i].1);
    }
    assert(map_of(list) =~= m);
}

/// A list of a map's entries in the order of identities stands for the map.
pub proof fn lemma_map_of_principal_list<V>(list: Seq<(Principal, V)>, m: Map<Principal, V>)
    requires
        lists_by_principal(list, m),
    ensures
        map_of(list) == m,
{
    assert forall|i: int, j: int| 0 <= i < j < list.len() implies list[i].0 != list[j].0 by {
        Principal::lemma_order(list[i].0, list[j].0, list[j].0);
    }
    lemma_map_of_distinct(list);
    assert forall|k: Principal| map_of(list).contains_key(k) == m.contains_key(k) by {
        if map_of(list).contains_key(k) {
            let i = choose|i: int| 0 <= i < list.len() && (#[trigger] list[i]).0 == k;
            assert(m.contains_key(list[i].0));
        }
        if m.contains_key(k) {
            let i = choose|i: int| 0 <= i < list.len() && (#[trigger] list[i]).0 == k;
        }
    }
    assert forall|k: Principal| map_of(list).contains_key(k) implies map_of(list)[k] == m[k] by {
        let i = choose|i: int| 0 <= i < list.len() && (#[trigger] list[i]).0 == k;
        assert(map_of(list)[list[i].0] == list[i].1);
    }
    assert(map_of(list) =~= m);
}

/// What the email index of a list of contacts holds: an entry for the
/// email of every contact, and every entry points at a contact with that
/// email.
pub proof fn lemma_email_index(pairs: Seq<(ContactId, Contact)>)
    ensures
        forall|e: Seq<char>| #[trigger]
            email_index(pairs).contains_key(e) ==> exists|i: int|
                0 <= i < pairs.len() && lowercase_text((#[trigger] pairs[i]).1.email@) == e
                    && email_index(pairs)[e] == pairs[i].0,
        forall|i: int|
            0 <= i < pairs.len() ==> email_index(pairs).contains_key(
                lowercase_text((#[trigger] pairs[i]).1.email@),
            ),
    decreases pairs.len(),
{
    if pairs.len() > 0 {
        let rest = pairs.drop_last();
        lemma_email_index(rest);
        let last = pairs.last();
        assert forall|e: Seq<char>| #[trigger] email_index(pairs).contains_key(e) implies exists|
            i: int,
        |
            0 <= i < pairs.len() && lowercase_text((#[trigger] pairs[i]).1.email@) == e
                && email_index(pairs)[e] == pairs[i].0 by {
            if e == lowercase_text(last.1.email@) {
                assert(pairs[pairs.len() - 1] == last);
            } else {
                assert(email_index(rest).contains_key(e));
                let i = choose|i: int|
                    0 <= i < rest.len() && lowercase_text((#[trigger] rest[i]).1.email@) == e
                        && email_index(rest)[e] == rest[i].0;
                assert(pairs[i] == rest[i]);
            }
        }
        assert forall|i: int| 0 <= i < pairs.len() implies email_index(pairs).contains_key(
            lowercase_text((#[trigger] pairs[i]).1.email@),
        ) by {
            if i < rest.len() {
                assert(rest[i] == pairs[i]);
            }
        }
    }
}

/// What the index of user references of a list of contacts holds.
pub proof fn lemma_user_index(pairs: Seq<(ContactId, Contact)>)
    ensures
        forall|u: Seq<char>| #[trigger]
            user_index(pairs).contains_key(u) ==> exists|i: int|
                0 <= i < pairs.len() && ((#[trigger] pairs[i]).1.user_id matches Some(s) && s@ == u)
                    && user_index(pairs)[u] == pairs[i].0,
        forall|i: int|
            0 <= i < pairs.len() ==> ((#[trigger] pairs[i]).1.user_id matches Some(s)
                ==> user_index(pairs).contains_key(s@)),
    decreases pairs.len(),
{
    if pairs.len() > 0 {
        let rest = pairs.drop_last();
        lemma_user_index(rest);
        let last = pairs.last();
        assert forall|u: Seq<char>| #[trigger] user_index(pairs).contains_key(u) implies exists|
            i: int,
        |
            0 <= i < pairs.len() && ((#[trigger] pairs[i]).1.user_id matches Some(s) && s@ == u)
                && user_index(pairs)[u] == pairs[i].0 by {
            if last.1.user_id matches Some(s) && s@ == u {
                assert(pairs[pairs.len() - 1] == last);
            } else {
                assert(user_index(rest).contains_key(u));
                let i = choose|i: int|
                    0 <= i < rest.len() && ((#[trigger] rest[i]).1.user_id matches Some(s) && s@
                        == u) && user_index(rest)[u] == rest[i].0;
                assert(pairs[i] == rest[i]);
            }
        }
        assert forall|i: int|
            0 <= i < pairs.len() implies ((#[trigger] pairs[i]).1.user_id matches Some(
            s,
        ) ==> user_index(pairs).contains_key(s@)) by {
            if i < rest.len() {
                assert(rest[i] == pairs[i]);
            }
        }
    }
}

/// What the index of deals of an ascending list of deals holds: every deal
/// stands in the list of its contact, every list ascends, and every number
/// in a list is that of a deal with that contact.
pub proof fn lemma_deal_index(pairs: Seq<(DealId, Deal)>)
    requires
        forall|i: int, j: int| 0 <= i < j < pairs.len() ==> pairs[i].0 < pairs[j].0,
    ensures
        forall|c: ContactId, k: int|
            deal_index(pairs).contains_key(c) && 0 <= k < deal_index(pairs)[c].len() ==> exists|
                i: int,
            |
                0 <= i < pairs.len() && (#[trigger] pairs[i]).0 == #[trigger] deal_index(pairs)[c][k]
                    && pairs[i].1.contact_id == c,
        forall|c: ContactId| #[trigger]
            deal_index(pairs).contains_key(c) ==> strictly_ascending(deal_index(pairs)[c]),
        forall|i: int|
            0 <= i < pairs.len() ==> deal_index(pairs).contains_key(
                (#[trigger] pairs[i]).1.contact_id,
            ) && deal_index(pairs)[pairs[i].1.contact_id].contains(pairs[i].0),
    decreases pairs.len(),
{
    if pairs.len() > 0 {
        let rest = pairs.drop_last();
        assert forall|i: int, j: int| 0 <= i < j < rest.len() implies rest[i].0 < rest[j].0 by {
            assert(rest[i] == pairs[i]);
            assert(rest[j] == pairs[j]);
        }
        lemma_deal_index(rest);
        let last = pairs.last();
        let c0 = last.1.contact_id;
        let earlier = deal_index(rest);
        let old_list = listed_deals(earlier, c0);
        let new_list = old_list.push(last.0);
        let index = deal_index(pairs);
        assert(index == earlier.insert(c0, new_list));
        assert forall|c: ContactId, k: int|
            index.contains_key(c) && 0 <= k < index[c].len() implies exists|i: int|
            0 <= i < pairs.len() && (#[trigger] pairs[i]).0 == #[trigger] index[c][k]
                && pairs[i].1.contact_id == c by {
            if c == c0 && k == old_list.len() {
                assert(pairs[pairs.len() - 1] == last);
            } else {
                assert(earlier.contains_key(c));
                assert(index[c][k] == earlier[c][k]);
                let i = choose|i: int|
                    0 <= i < rest.len() && (#[trigger] rest[i]).0 == earlier[c][k]
                        && rest[i].1.contact_id == c;
                assert(pairs[i] == rest[i]);
            }
        }
        assert forall|c: ContactId| #[trigger] index.contains_key(c) implies strictly_ascending(
            index[c],
        ) by {
            if c == c0 {
                assert forall|a: int, b: int| 0 <= a < b < new_list.len() implies new_list[a]
                    < new_list[b] by {
                    assert(new_list[a] == old_list[a]);
                    assert(earlier.contains_key(c0));
                    if b < old_list.len() {
                        assert(new_list[b] == old_list[b]);
                        assert(strictly_ascending(earlier[c0]));
                    } else {
                        let i = choose|i: int|
                            0 <= i < rest.len() && (#[trigger] rest[i]).0 == earlier[c0][a]
                                && rest[i].1.contact_id == c0;
                        assert(pairs[i] == rest[i]);
                        assert(pairs[i].0 < pairs[pairs.len() - 1].0);
                    }
                }
            } else {
                assert(earlier.contains_key(c));
            }
        }
        assert forall|i: int| 0 <= i < pairs.len() implies index.contains_key(
            (#[trigger] pairs[i]).1.contact_id,
        ) && index[pairs[i].1.contact_id].contains(pairs[i].0) by {
            if i < rest.len() {
                assert(rest[i] == pairs[i]);
                let c = rest[i].1.contact_id;
                assert(earlier[c].contains(rest[i].0));
                if c == c0 {
                    let k = choose|k: int| 0 <= k < old_list.len() && old_list[k] == rest[i].0;
                    assert(new_list[k] == rest[i].0);
                }
            } else {
                assert(new_list[old_list.len() as int] == last.0);
            }
        }
    }
}

/// A snapshot, restored, holds every record of the store again: the
/// identities, the roles, the rights, the contacts, the deals, the
/// transactions, the flags, the logs and the counters. Only the rate
/// limiter's buckets are gone.
pub proof fn lemma_restore_keeps_records(v: StateView, s: StableView)
    requires
        is_snapshot_of(s, v),
        v.next_audit_log_id >= 1,
    ensures
        restored(s) == (StateView {
            rate_limit_buckets: Map::empty(),
            contacts_by_email: restored(s).contacts_by_email,
            contacts_by_user: restored(s).contacts_by_user,
            deals_by_contact: restored(s).deals_by_contact,
            ..v
        }),
{
    lemma_map_of_text_list(s.authorized_canisters, v.authorized_canisters);
    lemma_map_of_principal_list(s.admin_permissions, v.admin_permissions);
    lemma_map_of_text_list(s.feature_flags, v.feature_flags);
    lemma_map_of_pairs(v.contacts);
    lemma_map_of_pairs(v.deals);
    lemma_map_of_pairs(v.transactions);
}

/// A snapshot of a consistent store in which every contact is indexed,
/// restored, holds every index entry of the store again: the email index
/// and the index of user references are the same maps, and every contact
/// has the same list of deals.
pub proof fn lemma_restore_keeps_indexes(v: StateView, s: StableView)
    requires
        is_snapshot_of(s, v),
        v.consistent(),
        v.contacts_indexed(),
    ensures
        restored(s).contacts_by_email == v.contacts_by_email,
        restored(s).contacts_by_user == v.contacts_by_user,
        forall|c: ContactId| restored(s).deals_of(c) == v.deals_of(c),
        restored(s).consistent(),
        restored(s).contacts_indexed(),
{
    lemma_restore_keeps_records(v, s);
    lemma_map_of_pairs(v.contacts);
    lemma_map_of_pairs(v.deals);
    let w = restored(s);
    let contacts = ascending_pairs(v.contacts);
    let deals = ascending_pairs(v.deals);
    lemma_email_index(contacts);
    lemma_user_index(contacts);
    lemma_deal_index(deals);
    assert forall|e: Seq<char>|
        w.contacts_by_email.contains_key(e) == v.contacts_by_email.contains_key(
        e,
    ) by {
        if w.contacts_by_email.contains_key(e) {
            let i = choose|i: int|
                0 <= i < contacts.len() && lowercase_text((#[trigger] contacts[i]).1.email@) == e
                    && email_index(contacts)[e] == contacts[i].0;
            assert(v.contacts.contains_key(contacts[i].0));
        }
        if v.contacts_by_email.contains_key(e) {
            let id = v.contacts_by_email[e];
            assert(v.contacts.contains_key(id));
            let i = choose|i: int| 0 <= i < contacts.len() && (#[trigger] contacts[i]).0 == id;
            assert(email_index(contacts).contains_key(lowercase_text(contacts[i].1.email@)));
        }
    }
    assert forall|e: Seq<char>| w.contacts_by_email.contains_key(e) implies w.contacts_by_email[e]
        == v.contacts_by_email[e] by {
        let i = choose|i: int|
            0 <= i < contacts.len() && lowercase_text((#[trigger] contacts[i]).1.email@) == e
                && email_index(contacts)[e] == contacts[i].0;
        assert(v.contacts.contains_key(contacts[i].0));
    }
    assert(w.contacts_by_email =~= v.contacts_by_email);
    assert forall|u: Seq<char>|
        w.contacts_by_user.contains_key(u) == v.contacts_by_user.contains_key(
        u,
    ) by {
        if w.contacts_by_user.contains_key(u) {
            let i = choose|i: int|
                0 <= i < contacts.len() && ((#[trigger] contacts[i]).1.user_id matches Some(x)
                    && x@ == u) && user_index(contacts)[u] == contacts[i].0;
            assert(v.contacts.contains_key(contacts[i].0));
        }
        if v.contacts_by_user.contains_key(u) {
            let id = v.contacts_by_user[u];
            assert(v.contacts.contains_key(id));
            let i = choose|i: int| 0 <= i < contacts.len() && (#[trigger] contacts[i]).0 == id;
            assert(contacts[i].1.user_id matches Some(x) ==> user_index(contacts).contains_key(x@));
        }
    }
    assert forall|u: Seq<char>| w.contacts_by_user.contains_key(u) implies w.contacts_by_user[u]
        == v.contacts_by_user[u] by {
        let i = choose|i: int|
            0 <= i < contacts.len() && ((#[trigger] contacts[i]).1.user_id matches Some(x) && x@
                == u) && user_index(contacts)[u] == contacts[i].0;
        assert(v.contacts.contains_key(contacts[i].0));
    }
    assert(w.contacts_by_user =~= v.contacts_by_user);
    let index = deal_index(deals);
    assert forall|c: ContactId| w.deals_of(c) == v.deals_of(c) by {
        let mine = w.deals_of(c);
        let theirs = v.deals_of(c);
        let d = Set::new(|x: u64| v.deals.contains_key(x) && v.deals[x].contact_id == c);
        assert(strictly_ascending(mine)) by {
            if index.contains_key(c) {
                assert(strictly_ascending(index[c]));
            }
        }
        assert(strictly_ascending(theirs)) by {
            if v.deals_by_contact.contains_key(c) {
                assert(strictly_ascending(v.deals_by_contact[c]));
            }
        }
        assert forall|x: u64| d.contains(x) <==> mine.contains(x) by {
            if mine.contains(x) {
                let k = choose|k: int| 0 <= k < mine.len() && mine[k] == x;
                let i = choose|i: int|
                    0 <= i < deals.len() && (#[trigger] deals[i]).0 == #[trigger] index[c][k]
                        && deals[i].1.contact_id == c;
                assert(v.deals.contains_key(deals[i].0));
            }
            if d.contains(x) {
                let i = choose|i: int| 0 <= i < deals.len() && (#[trigger] deals[i]).0 == x;
                assert(index.contains_key(deals[i].1.contact_id));
                assert(v.deals.contains_key(deals[i].0));
            }
        }
        assert forall|x: u64| d.contains(x) <==> theirs.contains(x) by {
            if theirs.contains(x) {
                let k = choose|k: int| 0 <= k < theirs.len() && theirs[k] == x;
                assert(v.deals.contains_key(v.deals_by_contact[c][k]));
            }
            if d.contains(x) {
                assert(v.deals.contains_key(x));
            }
        }
        lemma_one_ascending_list(mine, theirs, d);
    }
    assert forall|k: ContactId, i: int|
        w.deals_by_contact.contains_key(k) && 0 <= i < w.deals_by_contact[k].len() implies w.deals.contains_key(
        #[trigger] w.deals_by_contact[k][i],
    ) && w.deals[w.deals_by_contact[k][i]].contact_id == k by {
        let j = choose|j: int|
            0 <= j < deals.len() && (#[trigger] deals[j]).0 == #[trigger] index[k][i]
                && deals[j].1.contact_id == k;
        assert(v.deals.contains_key(deals[j].0));
    }
    assert forall|x: DealId| #[trigger]
        w.deals.contains_key(x) implies w.deals_by_contact.contains_key(
        w.deals[x].contact_id,
    ) && w.deals_by_contact[w.deals[x].contact_id].contains(x) by {
        let i = choose|i: int| 0 <= i < deals.len() && (#[trigger] deals[i]).0 == x;
        assert(index.contains_key(deals[i].1.contact_id));
        assert(v.deals.contains_key(deals[i].0));
    }
    assert forall|x: DealId| #[trigger] w.deals.contains_key(x) implies w.contacts.contains_key(
        w.deals[x].contact_id,
    ) by {
        assert(v.deals.contains_key(x));
    }
    assert forall|e: Seq<char>| #[trigger]
        w.contacts_by_email.contains_key(e) implies w.contacts.contains_key(
        w.contacts_by_email[e],
    ) && lowercase_text(w.contacts[w.contacts_by_email[e]].email@) == e by {
        assert(v.contacts_by_email.contains_key(e));
    }
    assert forall|u: Seq<char>| #[trigger]
        w.contacts_by_user.contains_key(u) implies w.contacts.contains_key(
        w.contacts_by_user[u],
    ) && (w.contacts[w.contacts_by_user[u]].user_id matches Some(x) && x@ == u) by {
        assert(v.contacts_by_user.contains_key(u));
    }
    assert forall|id: ContactId| #[trigger] w.contacts.contains_key(id) implies {
        &&& w.contacts_by_email.contains_key(lowercase_text(w.contacts[id].email@))
        &&& w.contacts_by_email[lowercase_text(w.contacts[id].email@)] == id
        &&& w.contacts[id].user_id matches Some(u) ==> w.contacts_by_user.contains_key(u@)
            && w.contacts_by_user[u@] == id
    } by {
        assert(v.contacts.contains_key(id));
    }
}

/// After a snapshot and a restore a contact is still found under its number,
/// under its email and under its user reference, and every way leads to the
/// record that the store held.
pub proof fn lemma_lookups_agree_after_restore(v: StateView, s: StableView, id: ContactId)
    requires
        is_snapshot_of(s, v),
        v.consistent(),
        v.contacts_indexed(),
        v.contacts.contains_key(id),
    ensures
        restored(s).contact(id) == Some(v.contacts[id]),
        restored(s).contact_by_email(v.contacts[id].email@) == Some(v.contacts[id]),
        v.contacts[id].user_id matches Some(u) ==> restored(s).contact_by_user(u@) == Some(
            v.contacts[id],
        ),
{
    lemma_restore_keeps_records(v, s);
    lemma_restore_keeps_indexes(v, s);
}

/// A snapshot, restored, holds the contacts that the store held, and no
/// others; and where no two contacts had one email, every contact is found
/// under its number and under its email, whatever the indexes of the store
/// were.
///
/// The email index of the restored store holds the contact's number under
/// its email in lower case. A lookup by the email in lower case finds the
/// contact wherever putting that email in lower case again changes nothing.
pub proof fn lemma_restore_finds_contacts(v: StateView, s: StableView, id: ContactId)
    requires
        is_snapshot_of(s, v),
        v.emails_distinct(),
        v.contacts.contains_key(id),
    ensures
        restored(s).contacts == v.contacts,
        restored(s).contact(id) == Some(v.contacts[id]),
        restored(s).contact_by_email(v.contacts[id].email@) == Some(v.contacts[id]),
        restored(s).contacts_by_email.contains_key(lowercase_text(v.contacts[id].email@)),
        restored(s).contacts_by_email[lowercase_text(v.contacts[id].email@)] == id,
        lowercase_text(lowercase_text(v.contacts[id].email@)) == lowercase_text(
            v.contacts[id].email@,
        ) ==> restored(s).contact_by_email(lowercase_text(v.contacts[id].email@)) == Some(
            v.contacts[id],
        ),
{
    lemma_map_of_pairs(v.contacts);
    let pairs = ascending_pairs(v.contacts);
    lemma_email_index(pairs);
    let e = lowercase_text(v.contacts[id].email@);
    let at = choose|i: int| 0 <= i < pairs.len() && (#[trigger] pairs[i]).0 == id;
    assert(email_index(pairs).contains_key(lowercase_text(pairs[at].1.email@)));
    let found = choose|i: int|
        0 <= i < pairs.len() && lowercase_text((#[trigger] pairs[i]).1.email@) == e && email_index(
            pairs,
        )[e] == pairs[i].0;
    assert(v.contacts.contains_key(pairs[found].0));
    assert(v.contacts.contains_key(id));
    assert(pairs[found].0 == id);
}

} // verus!
