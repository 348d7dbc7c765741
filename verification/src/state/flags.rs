//! Feature flags.

use vstd::prelude::*;
use crate::principal::{byte_total, Principal};
use crate::sorted_map::{ascending, lemma_position, position, SortKey};
use crate::state::{holds_principal, State, StateView};
use crate::text::text_before;
use crate::types::{AdminStats, FeatureFlag, FeatureFlagView, SetFeatureFlagRequest, Timestamp};

verus! {

/// The rollout bucket of an identity, from 0 to 99: the sum of its bytes
/// modulo 256, and that modulo 100.
pub open spec fn rollout_bucket(p: Principal) -> nat {
    (byte_total(p@) % 256) % 100
}

/// Whether a flag gives `p` the feature.
///
/// A disabled flag gives it to nobody. A flag with a non-empty allow-list
/// gives it to the listed identities and ignores its percentage. Else a flag
/// with a percentage gives it to the identities whose bucket is below the
/// percentage, and one without gives it to everybody.
pub open spec fn flag_enabled_for(flag: FeatureFlagView, p: Principal) -> bool {
    if !flag.enabled {
        false
    } else if flag.allowed_principals.len() > 0 {
        flag.allowed_principals.contains(p)
    } else {
        match flag.percentage {
            Some(percentage) => rollout_bucket(p) < percentage,
            None => true,
        }
    }
}

/// The keys of the enabled flags among the first `i` of `entries`.
pub open spec fn enabled_among(entries: Seq<(String, FeatureFlag)>, i: int) -> Set<Seq<char>> {
    Set::new(
        |k: Seq<char>|
            exists|j: int| 0 <= j < i && (#[trigger] entries[j]).0@ == k && entries[j].1.enabled,
    )
}

/// Whether the texts of `keys` ascend strictly.
pub open spec fn keys_ascend(keys: Seq<Seq<char>>) -> bool {
    forall|i: int, j: int| 0 <= i < j < keys.len() ==> text_before(#[trigger] keys[i], #[trigger] keys[j])
}

/// Whether `list` holds the flags that stand under `keys`, one for one.
pub open spec fn flags_under(
    list: Seq<FeatureFlag>,
    keys: Seq<Seq<char>>,
    flags: Map<Seq<char>, FeatureFlagView>,
) -> bool {
    &&& keys.len() == list.len()
    &&& keys.len() == flags.len()
    &&& keys_ascend(keys)
    &&& forall|i: int|
        0 <= i < keys.len() ==> flags.contains_key(#[trigger] keys[i]) && flags[keys[i]]
            == list[i]@
}

/// Whether `list` holds the flags of `flags`, each once, in the order of the
/// keys that they stand under.
pub open spec fn lists_flags(list: Seq<FeatureFlag>, flags: Map<Seq<char>, FeatureFlagView>) -> bool {
    exists|keys: Seq<Seq<char>>| flags_under(list, keys, flags)
}

impl StateView {
    /// The flag that `request` asks for, set at `now`.
    pub open spec fn new_flag(request: SetFeatureFlagRequest, now: Timestamp) -> FeatureFlagView {
        FeatureFlagView {
            key: request.key,
            enabled: request.enabled,
            description: request.description,
            percentage: request.percentage,
            allowed_principals: request.allow_list(),
            updated_at: now,
        }
    }

    /// Whether the flag `key` gives `p` the feature. An unknown flag gives it
    /// to nobody.
    pub open spec fn feature_enabled(self, key: Seq<char>, p: Principal) -> bool {
        self.feature_flags.contains_key(key) && flag_enabled_for(self.feature_flags[key], p)
    }

    /// The keys of the flags that are enabled.
    pub open spec fn enabled_keys(self) -> Set<Seq<char>> {
        Set::new(|k: Seq<char>| self.feature_flags.contains_key(k) && self.feature_flags[k].enabled)
    }

    /// How many records the store holds, and how many flags are enabled.
    pub open spec fn stats(self) -> AdminStats {
        AdminStats {
            total_contacts: self.contacts.len() as u64,
            total_deals: self.deals.len() as u64,
            total_transactions: self.transactions.len() as u64,
            active_feature_flags: self.enabled_keys().len() as u64,
        }
    }

    /// Every flag stands under its own key.
    pub open spec fn flags_keyed(self) -> bool {
        forall|k: Seq<char>| #[trigger]
            self.feature_flags.contains_key(k) ==> self.feature_flags[k].key@ == k
    }
}

impl State {
    /// Sets the flag `request.key` as a whole, in place of what was there.
    pub fn set_feature_flag(&mut self, request: SetFeatureFlagRequest, now: Timestamp)
        requires
            old(self).wf(),
        ensures
            final(self).wf(),
            final(self)@ == (StateView {
                feature_flags: old(self)@.feature_flags.insert(
                    request.key@,
                    StateView::new_flag(request, now),
                ),
                ..old(self)@
            }),
            old(self)@.consistent() ==> final(self)@.consistent(),
            old(self)@.consistent() && old(self)@.contacts_indexed()
                ==> final(self)@.contacts_indexed(),
    {
        let ghost before = self.feature_flags@;
        let key = request.key.clone();
        let flag = FeatureFlag {
            key: request.key,
            enabled: request.enabled,
            description: request.description,
            percentage: request.percentage,
            allowed_principals: match request.allowed_principals {
                Some(list) => list,
                None => Vec::new(),
            },
            updated_at: now,
        };
        self.feature_flags.insert(key, flag);
        proof {
            assert(self.feature_flags@ =~= before.insert(request.key@, flag));
            assert(self@.feature_flags =~= old(self)@.feature_flags.insert(
                request.key@,
                StateView::new_flag(request, now),
            ));
        }
    }

    /// The flag `key`.
    pub fn get_feature_flag(&self, key: &str) -> (r: Option<&FeatureFlag>)
        requires
            self.wf(),
        ensures
            match r {
                Some(f) => self@.feature_flags.contains_key(key@) && f@ == self@.feature_flags[key@],
                None => !self@.feature_flags.contains_key(key@),
            },
    {
        let k = key.to_string();
        self.feature_flags.get(&k)
    }

    /// Whether the flag `key` gives `principal` the feature.
    pub fn is_feature_enabled(&self, key: &str, principal: &Principal) -> (r: bool)
        requires
            self.wf(),
        ensures
            r == self@.feature_enabled(key@, *principal),
    {
        let k = key.to_string();
        match self.feature_flags.get(&k) {
            Some(flag) => {
                if !flag.enabled {
                    return false;
                }
                if flag.allowed_principals.len() > 0 {
                    return holds_principal(&flag.allowed_principals, principal);
                }
                match flag.percentage {
                    Some(percentage) => {
                        let bucket: u64 = (principal.byte_sum() % 256) % 100;
                        bucket < percentage as u64
                    },
                    None => true,
                }
            },
            None => false,
        }
    }

    /// The number of contacts.
    pub fn contact_count(&self) -> (n: usize)
        ensures
            n == self@.contacts.len(),
    {
        self.contacts.len()
    }

    /// The number of deals.
    pub fn deal_count(&self) -> (n: usize)
        ensures
            n == self@.deals.len(),
    {
        self.deals.len()
    }

    /// The number of transactions.
    pub fn transaction_count(&self) -> (n: usize)
        ensures
            n == self@.transactions.len(),
    {
        self.transactions.len()
    }

    /// How many records the store holds, and how many flags are enabled.
    pub fn stats(&self) -> (r: AdminStats)
        requires
            self.wf(),
        ensures
            r == self@.stats(),
            r.total_contacts == self@.contacts.len(),
            r.total_deals == self@.deals.len(),
            r.total_transactions == self@.transactions.len(),
            r.active_feature_flags == self@.enabled_keys().len(),
    {
        let n: usize = self.feature_flags.len();
        let mut active: u64 = 0;
        let mut i: usize = 0;
        let ghost entries = self.feature_flags.entries();
        proof {
            assert(enabled_among(entries, 0) =~= Set::<Seq<char>>::empty());
        }
        while i < n
            invariant
                self.wf(),
                entries == self.feature_flags.entries(),
                n == entries.len(),
                i <= n,
                enabled_among(entries, i as int).finite(),
                active == enabled_among(entries, i as int).len(),
                active <= i,
            decreases n - i,
        {
            let on: bool = self.feature_flags.value_at(i).enabled;
            proof {
                self.feature_flags.lemma_entries();
                let key = entries[i as int].0@;
                let earlier = enabled_among(entries, i as int);
                let grown = enabled_among(entries, i + 1);
                assert(!earlier.contains(key)) by {
                    if earlier.contains(key) {
                        let j = choose|j: int|
                            0 <= j < i && (#[trigger] entries[j]).0@ == key && entries[j].1.enabled;
                        lemma_position(entries, j);
                        lemma_position(entries, i as int);
                    }
                }
                if on {
                    assert(grown =~= earlier.insert(key)) by {
                        assert forall|k: Seq<char>|
                            grown.contains(k) == earlier.insert(key).contains(
                            k,
                        ) by {
                            if grown.contains(k) {
                                let j = choose|j: int|
                                    0 <= j < i + 1 && (#[trigger] entries[j]).0@ == k
                                        && entries[j].1.enabled;
                                if j < i {
                                    assert(earlier.contains(k));
                                }
                            }
                            if earlier.contains(k) {
                                let j = choose|j: int|
                                    0 <= j < i && (#[trigger] entries[j]).0@ == k
                                        && entries[j].1.enabled;
                                assert(0 <= j < i + 1);
                            }
                            if k == key {
                                assert(entries[i as int].0@ == k);
                            }
                        }
                    }
                } else {
                    assert(grown =~= earlier) by {
                        assert forall|k: Seq<char>| grown.contains(k) == earlier.contains(k) by {
                            if grown.contains(k) {
                                let j = choose|j: int|
                                    0 <= j < i + 1 && (#[trigger] entries[j]).0@ == k
                                        && entries[j].1.enabled;
                                assert(j < i);
                            }
                            if earlier.contains(k) {
                                let j = choose|j: int|
                                    0 <= j < i && (#[trigger] entries[j]).0@ == k
                                        && entries[j].1.enabled;
                                assert(0 <= j < i + 1);
                            }
                        }
                    }
                }
            }
            if on {
                active = active + 1;
            }
            i += 1;
        }
        proof {
            self.feature_flags.lemma_entries();
            assert(enabled_among(entries, n as int) =~= self@.enabled_keys()) by {
                assert forall|k: Seq<char>| enabled_among(entries, n as int).contains(k)
                    == self@.enabled_keys().contains(k) by {
                    if enabled_among(entries, n as int).contains(k) {
                        let j = choose|j: int|
                            0 <= j < n && (#[trigger] entries[j]).0@ == k && entries[j].1.enabled;
                        assert(self.feature_flags@.contains_key(entries[j].0.model()));
                    }
                    if self@.enabled_keys().contains(k) {
                        assert(self.feature_flags@.contains_key(k));
                        let p = position(entries, k);
                        assert(entries[p].0@ == k);
                        assert(self.feature_flags@.contains_key(entries[p].0.model()));
                    }
                }
            }
        }
        AdminStats {
            total_contacts: self.contacts.len() as u64,
            total_deals: self.deals.len() as u64,
            total_transactions: self.transactions.len() as u64,
            active_feature_flags: active,
        }
    }

    /// All flags, in the order of their keys.
    pub fn list_feature_flags(&self) -> (r: Vec<FeatureFlag>)
        requires
            self.wf(),
        ensures
            lists_flags(r@, self@.feature_flags),
            self@.flags_keyed() ==> forall|i: int, j: int|
                0 <= i < j < r@.len() ==> text_before(
                    (#[trigger] r@[i]).key@,
                    (#[trigger] r@[j]).key@,
                ),
    {
        let n: usize = self.feature_flags.len();
        let mut out: Vec<FeatureFlag> = Vec::new();
        let mut i: usize = 0;
        while i < n
            invariant
                n == self.feature_flags.entries().len(),
                i <= n,
                out@.len() == i,
                forall|j: int|
                    0 <= j < i ==> (#[trigger] out@[j])@ == self.feature_flags.entries()[j].1@,
            decreases n - i,
        {
            out.push(self.feature_flags.value_at(i).clone());
            i += 1;
        }
        proof {
            self.feature_flags.lemma_entries();
            let entries = self.feature_flags.entries();
            let keys = Seq::new(entries.len(), |j: int| entries[j].0@);
            assert forall|j: int| 0 <= j < keys.len() implies self@.feature_flags.contains_key(
                #[trigger] keys[j],
            ) && self@.feature_flags[keys[j]] == out@[j]@ by {
                assert(self.feature_flags@.contains_key(entries[j].0.model()));
                assert(out@[j]@ == entries[j].1@);
            }
            assert forall|a: int, b: int| 0 <= a < b < keys.len() implies text_before(
                #[trigger] keys[a],
                #[trigger] keys[b],
            ) by {
                assert(ascending(entries));
                assert(String::before(entries[a].0.model(), entries[b].0.model()));
            }
            assert(self@.feature_flags.len() == entries.len()) by {
                assert(self@.feature_flags.dom() =~= self.feature_flags@.dom());
            }
            assert(flags_under(out@, keys, self@.feature_flags));
            if self@.flags_keyed() {
                assert forall|a: int, b: int| 0 <= a < b < out@.len() implies text_before(
                    (#[trigger] out@[a]).key@,
                    (#[trigger] out@[b]).key@,
                ) by {
                    assert(self@.feature_flags.contains_key(keys[a]));
                    assert(self@.feature_flags.contains_key(keys[b]));
                    assert(text_before(keys[a], keys[b]));
                }
            }
        }
        out
    }
}

} // verus!
