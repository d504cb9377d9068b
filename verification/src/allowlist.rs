//! Who, besides its funder, may add keys to a drop.

use vstd::prelude::*;
use crate::creation::may_add_keys;
use crate::state::{str_vec_contains, vec_contains_str, DropView, Keypom, KeypomView};
use crate::types::{AccountId, DropConfig, DropId, KeypomError};

verus! {

/// The accounts in a list, as a set of texts.
pub open spec fn account_set(v: Seq<String>) -> Set<Seq<char>> {
    Set::new(|a: Seq<char>| str_vec_contains(v, a))
}

/// The accounts on a configuration's allowlist (none without one).
pub open spec fn allowlist_set(c: Option<DropConfig>) -> Set<Seq<char>> {
    match c {
        Some(cfg) => match cfg.add_key_allowlist {
            Some(l) => account_set(l@),
            None => Set::empty(),
        },
        None => Set::empty(),
    }
}

/// Whether a configuration has an allowlist.
pub open spec fn has_allowlist(c: Option<DropConfig>) -> bool {
    c matches Some(cfg) && cfg.add_key_allowlist is Some
}

/// The refusal met when a caller changes a drop's allowlist, if any: a frozen contract, an
/// unknown drop, or a caller other than the funder.
pub open spec fn allowlist_change_error(s: KeypomView, predecessor: Seq<char>, drop_id: Seq<char>) -> Option<
    KeypomError,
> {
    if predecessor != s.contract_owner_id && s.global_freeze {
        Some(KeypomError::GlobalFreeze)
    } else if !s.drop_by_id.contains_key(drop_id) {
        Some(KeypomError::DropNotFound)
    } else if s.drop_by_id[drop_id].funder_id != predecessor {
        Some(KeypomError::NotFunder)
    } else {
        None
    }
}

/// Whether `new` keeps every field of `old` but the allowlist (a missing configuration counting
/// as one with every field unset) and has an allowlist holding exactly `accounts`.
pub open spec fn config_with_allowlist(
    old: Option<DropConfig>,
    new: Option<DropConfig>,
    accounts: Set<Seq<char>>,
) -> bool {
    &&& new matches Some(n) && n.add_key_allowlist matches Some(l) && account_set(l@) == accounts
    &&& match old {
        Some(o) => {
            &&& new->0.metadata == o.metadata
            &&& new->0.delete_empty_drop == o.delete_empty_drop
            &&& new->0.extra_allowance_per_key == o.extra_allowance_per_key
        },
        None => {
            &&& new->0.metadata is None
            &&& new->0.delete_empty_drop is None
            &&& new->0.extra_allowance_per_key is None
        },
    }
}

/// The state where only the configuration of one drop changed.
pub open spec fn with_config(s: KeypomView, t: KeypomView, drop_id: Seq<char>) -> bool {
    t == KeypomView {
        drop_by_id: s.drop_by_id.insert(
            drop_id,
            DropView { config: t.drop_by_id[drop_id].config, ..s.drop_by_id[drop_id] },
        ),
        ..s
    }
}

/// The list with the accounts of `add` that it lacks appended.
fn union_accounts(list: Vec<AccountId>, add: &Vec<AccountId>) -> (r: Vec<AccountId>)
    ensures
        account_set(r@) == account_set(list@) + account_set(add@),
{
    let ghost l0 = list@;
    let mut out = list;
    let mut i: usize = 0;
    while i < add.len()
        invariant
            i <= add@.len(),
            account_set(out@) == account_set(l0) + account_set(add@.take(i as int)),
        decreases add@.len() - i,
    {
        let a = &add[i];
        let ghost before = out@;
        if !vec_contains_str(&out, a) {
            out.push(a.clone());
        }
        proof {
            assert forall|x: Seq<char>| account_set(out@).contains(x) <==> (account_set(l0)
                + account_set(add@.take(i + 1))).contains(x) by {
                if str_vec_contains(out@, x) && x != a@ {
                    let j = choose|j: int| 0 <= j < out@.len() && (#[trigger] out@[j])@ == x;
                    assert(before[j]@ == x);
                    assert(account_set(before).contains(x));
                    if account_set(add@.take(i as int)).contains(x) {
                        let k = choose|k: int| 0 <= k < i && (#[trigger] add@.take(i as int)[k])@ == x;
                        assert(add@.take(i + 1)[k]@ == x);
                    }
                }
                if x == a@ {
                    assert(add@.take(i + 1)[i as int]@ == x);
                    if !str_vec_contains(before, a@) {
                        assert(out@[before.len() as int]@ == x);
                    }
                }
                if (account_set(l0) + account_set(add@.take(i + 1))).contains(x) && x != a@ {
                    if account_set(add@.take(i + 1)).contains(x) {
                        let k = choose|k: int| 0 <= k < i + 1 && (#[trigger] add@.take(i + 1)[k])@ == x;
                        assert(add@.take(i as int)[k]@ == x);
                    }
                    assert(account_set(before).contains(x));
                    let j = choose|j: int| 0 <= j < before.len() && (#[trigger] before[j])@ == x;
                    assert(out@[j]@ == x);
                }
            }
            assert(account_set(out@) =~= account_set(l0) + account_set(add@.take(i + 1)));
        }
        i = i + 1;
    }
    proof {
        assert(add@.take(add@.len() as int) =~= add@);
    }
    out
}

/// The accounts of a list that `remove` does not name, in order.
fn difference_accounts(list: &Vec<AccountId>, remove: &Vec<AccountId>) -> (r: Vec<AccountId>)
    ensures
        account_set(r@) == account_set(list@) - account_set(remove@),
{
    let mut out: Vec<AccountId> = Vec::new();
    let mut i: usize = 0;
    while i < list.len()
        invariant
            i <= list@.len(),
            account_set(out@) == account_set(list@.take(i as int)) - account_set(remove@),
        decreases list@.len() - i,
    {
        let a = &list[i];
        let ghost before = out@;
        let dropped = vec_contains_str(remove, a);
        if !dropped {
            out.push(a.clone());
        }
        proof {
            assert forall|x: Seq<char>| account_set(out@).contains(x) <==> (account_set(
                list@.take(i + 1),
            ) - account_set(remove@)).contains(x) by {
                if str_vec_contains(out@, x) {
                    let j = choose|j: int| 0 <= j < out@.len() && (#[trigger] out@[j])@ == x;
                    if j < before.len() {
                        assert(before[j]@ == x);
                        assert(account_set(before).contains(x));
                        let k = choose|k: int| 0 <= k < i && (#[trigger] list@.take(i as int)[k])@ == x;
                        assert(list@.take(i + 1)[k]@ == x);
                    } else {
                        assert(list@.take(i + 1)[i as int]@ == x);
                    }
                }
                if (account_set(list@.take(i + 1)) - account_set(remove@)).contains(x) {
                    let k = choose|k: int| 0 <= k < i + 1 && (#[trigger] list@.take(i + 1)[k])@ == x;
                    if k < i {
                        assert(list@.take(i as int)[k]@ == x);
                        assert(account_set(before).contains(x));
                        let j = choose|j: int| 0 <= j < before.len() && (#[trigger] before[j])@ == x;
                        assert(out@[j]@ == x);
                    } else {
                        assert(out@[before.len() as int]@ == x);
                    }
                }
            }
            assert(account_set(out@) =~= account_set(list@.take(i + 1)) - account_set(remove@));
        }
        i = i + 1;
    }
    proof {
        assert(list@.take(list@.len() as int) =~= list@);
    }
    out
}

/// What the allowlist decides: once `add_to_sale_allowlist` has put accounts on a drop's
/// allowlist, each of them may add keys to the drop; once `remove_from_sale_allowlist` has taken
/// accounts off, none of them may, unless it is the funder.
pub proof fn lemma_allowlist_decides_who_adds_keys(
    s: KeypomView,
    t: KeypomView,
    drop_id: Seq<char>,
    accounts: Seq<String>,
    a: Seq<char>,
    added: bool,
)
    requires
        s.drop_by_id.contains_key(drop_id),
        with_config(s, t, drop_id),
        config_with_allowlist(
            s.drop_by_id[drop_id].config,
            t.drop_by_id[drop_id].config,
            if added {
                allowlist_set(s.drop_by_id[drop_id].config) + account_set(accounts)
            } else {
                allowlist_set(s.drop_by_id[drop_id].config) - account_set(accounts)
            },
        ),
        account_set(accounts).contains(a),
    ensures
        added ==> may_add_keys(t.drop_by_id[drop_id], a),
        !added ==> (may_add_keys(t.drop_by_id[drop_id], a) <==> a == s.drop_by_id[drop_id].funder_id),
{
    let d = t.drop_by_id[drop_id];
    assert(d.funder_id == s.drop_by_id[drop_id].funder_id);
    let l = d.config->0.add_key_allowlist->0;
    assert(account_set(l@).contains(a) == str_vec_contains(l@, a));
}

impl Keypom {
    /// Let more accounts add keys to a drop (funder only): they join the drop's allowlist, which
    /// is created, with the rest of the configuration, where missing. The storage this takes is
    /// charged to the caller afterwards.
    pub fn add_to_sale_allowlist(&mut self, predecessor: &AccountId, drop_id: &DropId, account_ids: Vec<AccountId>) -> (r:
        Result<(), KeypomError>)
        ensures
            match allowlist_change_error(old(self)@, predecessor@, drop_id@) {
                Some(e) => r == Err::<(), KeypomError>(e) && final(self)@ == old(self)@,
                None => {
                    &&& r is Ok
                    &&& with_config(old(self)@, final(self)@, drop_id@)
                    &&& config_with_allowlist(
                        old(self)@.drop_by_id[drop_id@].config,
                        final(self)@.drop_by_id[drop_id@].config,
                        allowlist_set(old(self)@.drop_by_id[drop_id@].config) + account_set(account_ids@),
                    )
                },
            },
    {
        self.assert_no_global_freeze(predecessor)?;
        match self.drop_by_id.get(drop_id) {
            Some(d) => {
                if d.funder_id != *predecessor {
                    return Err(KeypomError::NotFunder);
                }
            },
            None => {
                return Err(KeypomError::DropNotFound);
            },
        }
        let ghost s0 = self@;
        let ghost d0 = s0.drop_by_id[drop_id@];
        let mut drop = match self.drop_by_id.remove(drop_id) {
            Some(d) => d,
            None => {
                return Err(KeypomError::DropNotFound);
            },
        };
        let new_config = match drop.config.take() {
            Some(c) => {
                let list = match c.add_key_allowlist {
                    Some(l) => l,
                    None => Vec::new(),
                };
                proof {
                    assert(account_set(Seq::<String>::empty()) =~= Set::<Seq<char>>::empty());
                }
                DropConfig {
                    metadata: c.metadata,
                    add_key_allowlist: Some(union_accounts(list, &account_ids)),
                    delete_empty_drop: c.delete_empty_drop,
                    extra_allowance_per_key: c.extra_allowance_per_key,
                }
            },
            None => {
                proof {
                    assert(account_set(Seq::<String>::empty()) =~= Set::<Seq<char>>::empty());
                }
                DropConfig {
                    metadata: None,
                    add_key_allowlist: Some(union_accounts(Vec::new(), &account_ids)),
                    delete_empty_drop: None,
                    extra_allowance_per_key: None,
                }
            },
        };
        drop.config = Some(new_config);
        let ghost d1 = drop@;
        self.drop_by_id.insert(drop_id.clone(), drop);
        proof {
            assert(d1 == DropView { config: d1.config, ..d0 });
            assert(self@.drop_by_id =~= s0.drop_by_id.insert(drop_id@, d1));
        }
        Ok(())
    }

    /// Take accounts off a drop's allowlist (funder only); the drop must have one. The storage
    /// this frees is settled with the caller afterwards.
    pub fn remove_from_sale_allowlist(&mut self, predecessor: &AccountId, drop_id: &DropId, account_ids: Vec<
        AccountId,
    >) -> (r: Result<(), KeypomError>)
        ensures
            match allowlist_change_error(old(self)@, predecessor@, drop_id@) {
                Some(e) => r == Err::<(), KeypomError>(e) && final(self)@ == old(self)@,
                None => if !has_allowlist(old(self)@.drop_by_id[drop_id@].config) {
                    r == Err::<(), KeypomError>(KeypomError::NoAllowlist) && final(self)@ == old(self)@
                } else {
                    &&& r is Ok
                    &&& with_config(old(self)@, final(self)@, drop_id@)
                    &&& config_with_allowlist(
                        old(self)@.drop_by_id[drop_id@].config,
                        final(self)@.drop_by_id[drop_id@].config,
                        allowlist_set(old(self)@.drop_by_id[drop_id@].config) - account_set(account_ids@),
                    )
                },
            },
    {
        self.assert_no_global_freeze(predecessor)?;
        match self.drop_by_id.get(drop_id) {
            Some(d) => {
                if d.funder_id != *predecessor {
                    return Err(KeypomError::NotFunder);
                }
                let has_list = match &d.config {
                    Some(c) => c.add_key_allowlist.is_some(),
                    None => false,
                };
                if !has_list {
                    return Err(KeypomError::NoAllowlist);
                }
            },
            None => {
                return Err(KeypomError::DropNotFound);
            },
        }
        let ghost s0 = self@;
        let ghost d0 = s0.drop_by_id[drop_id@];
        let mut drop = match self.drop_by_id.remove(drop_id) {
            Some(d) => d,
            None => {
                return Err(KeypomError::DropNotFound);
            },
        };
        let new_config = match drop.config.take() {
            Some(c) => {
                let list = match c.add_key_allowlist {
                    Some(l) => l,
                    None => Vec::new(),
                };
                DropConfig {
                    metadata: c.metadata,
                    add_key_allowlist: Some(difference_accounts(&list, &account_ids)),
                    delete_empty_drop: c.delete_empty_drop,
                    extra_allowance_per_key: c.extra_allowance_per_key,
                }
            },
            None => {
                proof {
                    assert(false);
                }
                DropConfig {
                    metadata: None,
                    add_key_allowlist: None,
                    delete_empty_drop: None,
                    extra_allowance_per_key: None,
                }
            },
        };
        drop.config = Some(new_config);
        let ghost d1 = drop@;
        self.drop_by_id.insert(drop_id.clone(), drop);
        proof {
            assert(d1 == DropView { config: d1.config, ..d0 });
            assert(self@.drop_by_id =~= s0.drop_by_id.insert(drop_id@, d1));
        }
        Ok(())
    }
}

} // verus!
