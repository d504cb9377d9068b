//! Deleting keys of a drop: their public keys, ownership and records go, what their remaining
//! uses would have cost is refunded to the funder, and an emptied drop goes too.

use vstd::prelude::*;
use crate::assets::{str_seq, InternalAsset};
use crate::resolution::{all_assets_empty, all_empty};
use crate::state::{
    modify_balance_spec, set_remove, DropView, InternalDrop, KeyInfoView, Keypom, KeypomView,
};
use crate::strmap::StrMap;
use crate::types::{AccountId, DropId, KeypomError, PublicKey};
use crate::uses::{costs_result, get_total_costs_for_key, remaining_data_spec};

verus! {

/// What the deletion of a list of keys has reached.
pub struct DeleteState {
    /// Token IDs by public key.
    pub tokens: Map<Seq<char>, Seq<char>>,
    /// Tokens per owner.
    pub owners: Map<Seq<char>, Map<Seq<char>, ()>>,
    /// The drop's keys.
    pub keys: Map<Seq<char>, KeyInfoView>,
    /// The $NEAR the deleted keys' remaining uses would have cost.
    pub total: int,
}

/// One key deleted: its public key must be registered with a key of the drop, its owner must own
/// tokens, and the cost of its remaining uses must be computable and add up within `u128`.
pub open spec fn delete_step(st: DeleteState, d: DropView, now: u64, pk: Seq<char>) -> Result<DeleteState, KeypomError> {
    if !st.tokens.contains_key(pk) {
        Err(KeypomError::KeyNotFound)
    } else {
        let t = st.tokens[pk];
        if !st.keys.contains_key(t) {
            Err(KeypomError::KeyNotFound)
        } else {
            let k = st.keys[t];
            if k.owner_id matches Some(o) && !st.owners.contains_key(o) {
                Err(KeypomError::Unauthorized)
            } else {
                match costs_result(remaining_data_spec(d.asset_data_for_uses, k.remaining_uses as int), d.asset_by_id, now) {
                    Err(e) => Err(e),
                    Ok(c) => if st.total + c > u128::MAX {
                        Err(KeypomError::Overflow)
                    } else {
                        Ok(
                            DeleteState {
                                tokens: st.tokens.remove(pk),
                                owners: match k.owner_id {
                                    Some(o) => set_remove(st.owners, o, t),
                                    None => st.owners,
                                },
                                keys: st.keys.remove(t),
                                total: st.total + c,
                            },
                        )
                    },
                }
            }
        }
    }
}

/// Deletion of the first `k` keys of a list: the state reached and the refusal that stopped it.
pub open spec fn delete_upto(st0: DeleteState, d: DropView, now: u64, pks: Seq<Seq<char>>, k: int) -> (
    DeleteState,
    Option<KeypomError>,
)
    decreases k,
{
    if k <= 0 {
        (st0, None)
    } else {
        let (st, e) = delete_upto(st0, d, now, pks, k - 1);
        if e is Some {
            (st, e)
        } else {
            match delete_step(st, d, now, pks[k - 1]) {
                Ok(st2) => (st2, None),
                Err(err) => (st, Some(err)),
            }
        }
    }
}

/// Where the deletion of keys of a drop starts.
pub open spec fn delete_start(s: KeypomView, drop_id: Seq<char>) -> DeleteState {
    DeleteState {
        tokens: s.token_id_by_pk,
        owners: s.tokens_per_owner,
        keys: s.drop_by_id[drop_id].key_info_by_token_id,
        total: 0,
    }
}

/// The state with the deletions made so far.
pub open spec fn partial_delete_state(s: KeypomView, drop_id: Seq<char>, st: DeleteState) -> KeypomView {
    let d = s.drop_by_id[drop_id];
    KeypomView {
        token_id_by_pk: st.tokens,
        tokens_per_owner: st.owners,
        drop_by_id: s.drop_by_id.insert(drop_id, DropView { key_info_by_token_id: st.keys, ..d }),
        ..s
    }
}

/// After every key is deleted: a drop left without keys goes (unless it is to be kept), with its
/// record among the funder's drops, and the cost of the deleted uses is refunded to the funder.
/// Returns the state reached and the refusal met, if any.
pub open spec fn finish_delete(s: KeypomView, drop_id: Seq<char>, st: DeleteState, keep: bool) -> (
    KeypomView,
    Option<KeypomError>,
) {
    let d = s.drop_by_id[drop_id];
    let removed = st.keys.dom().len() == 0 && !keep;
    let s1 = KeypomView {
        token_id_by_pk: st.tokens,
        tokens_per_owner: st.owners,
        drop_by_id: if removed {
            s.drop_by_id.remove(drop_id)
        } else {
            s.drop_by_id.insert(drop_id, DropView { key_info_by_token_id: st.keys, ..d })
        },
        ..s
    };
    if removed && !s1.drop_ids_by_funder.contains_key(d.funder_id) {
        (s1, Some(KeypomError::DropNotFound))
    } else {
        let s2 = if removed {
            KeypomView { drop_ids_by_funder: set_remove(s1.drop_ids_by_funder, d.funder_id, drop_id), ..s1 }
        } else {
            s1
        };
        match modify_balance_spec(s2, d.funder_id, st.total as u128, false) {
            Some(s3) => (s3, None),
            None => (s2, Some(KeypomError::Overflow)),
        }
    }
}

/// The refusal met before deleting keys, if any.
pub open spec fn delete_keys_error(s: KeypomView, predecessor: Seq<char>, drop_id: Seq<char>) -> Option<KeypomError> {
    if predecessor != s.contract_owner_id && s.global_freeze {
        Some(KeypomError::GlobalFreeze)
    } else if !s.drop_by_id.contains_key(drop_id) {
        Some(KeypomError::DropNotFound)
    } else if s.drop_by_id[drop_id].funder_id != predecessor {
        Some(KeypomError::NotFunder)
    } else if !all_assets_empty(s.drop_by_id[drop_id].asset_by_id) {
        Some(KeypomError::AssetsNotEmpty)
    } else {
        None
    }
}

/// The number of keys a limit selects (100 by default).
pub open spec fn limit_count(limit: Option<u8>, n: int) -> int {
    let l = match limit {
        Some(x) => x as int,
        None => 100,
    };
    if l < n {
        l
    } else {
        n
    }
}

/// The public keys of the first keys of a drop in storage order.
pub open spec fn first_pks(drop: InternalDrop, count: int) -> Seq<Seq<char>> {
    Seq::new(
        count as nat,
        |i: int| drop.key_info_by_token_id@[drop.key_info_by_token_id.key_seq()[i]].pub_key,
    )
}

/// The public keys a deletion works on: those given, or the first keys of the drop up to the
/// limit.
pub open spec fn deletion_pks(drop: InternalDrop, public_keys: Option<Vec<PublicKey>>, limit: Option<u8>) -> Seq<
    Seq<char>,
> {
    match public_keys {
        Some(v) => str_seq(v@),
        None => first_pks(drop, limit_count(limit, drop.key_info_by_token_id.key_seq().len() as int)),
    }
}

/// The public keys of the first keys of a drop, up to a limit.
fn keys_for_deletion(drop: &InternalDrop, limit: Option<u8>) -> (r: Vec<PublicKey>)
    ensures
        str_seq(r@) == first_pks(
            *drop,
            limit_count(limit, drop.key_info_by_token_id.key_seq().len() as int),
        ),
{
    let n = drop.key_info_by_token_id.len();
    let l: usize = match limit {
        Some(x) => x as usize,
        None => 100,
    };
    let count = if l < n {
        l
    } else {
        n
    };
    let ghost want = first_pks(*drop, count as int);
    let mut r: Vec<PublicKey> = Vec::new();
    let mut i: usize = 0;
    while i < count
        invariant
            count <= n,
            n == drop.key_info_by_token_id.key_seq().len(),
            i <= count,
            want == first_pks(*drop, count as int),
            str_seq(r@) == want.take(i as int),
        decreases count - i,
    {
        let pk = drop.key_info_by_token_id.value_at(i).pub_key.clone();
        let ghost before = r@;
        r.push(pk);
        proof {
            assert(r@ == before.push(pk));
            assert(pk@ == want[i as int]);
            assert(str_seq(r@) =~= str_seq(before).push(pk@));
            assert(str_seq(r@) =~= want.take(i + 1));
        }
        i = i + 1;
    }
    proof {
        assert(want.take(count as int) =~= want);
    }
    r
}

impl Keypom {
    /// Delete keys of a drop (the caller must be its funder and its assets must be empty): the
    /// public keys given, or the first keys of the drop up to the limit (100 by default). Each key
    /// is deleted as `delete_step` describes, then `finish_delete` applies. Returns the public keys
    /// whose access keys are to be deleted. Refused before any change as `delete_keys_error`
    /// describes; a refusal met later keeps what was done before it, and the caller aborts.
    pub fn delete_keys(
        &mut self,
        predecessor: &AccountId,
        drop_id: &DropId,
        public_keys: Option<Vec<PublicKey>>,
        limit: Option<u8>,
        keep_empty_drop: Option<bool>,
        block_timestamp: u64,
    ) -> (r: Result<Vec<PublicKey>, KeypomError>)
        ensures
            match delete_keys_error(old(self)@, predecessor@, drop_id@) {
                Some(e) => r matches Err(x) && x == e && final(self)@ == old(self)@,
                None => {
                    let s = old(self)@;
                    let d = s.drop_by_id[drop_id@];
                    let pks = deletion_pks(old(self).drop_by_id.value_of(drop_id@), public_keys, limit);
                    let (st, e) = delete_upto(delete_start(s, drop_id@), d, block_timestamp, pks, pks.len() as int);
                    let keep = match keep_empty_drop {
                        Some(b) => b,
                        None => false,
                    };
                    match e {
                        Some(err) => r matches Err(x) && x == err && final(self)@ == partial_delete_state(s, drop_id@, st),
                        None => {
                            let (s3, e3) = finish_delete(s, drop_id@, st, keep);
                            &&& final(self)@ == s3
                            &&& match e3 {
                                Some(err) => r matches Err(x) && x == err,
                                None => r matches Ok(v) && str_seq(v@) == pks,
                            }
                        },
                    }
                },
            },
    {
        self.assert_no_global_freeze(predecessor)?;
        let drop_ref = match self.drop_by_id.get(drop_id) {
            Some(d) => d,
            None => {
                return Err(KeypomError::DropNotFound);
            },
        };
        if drop_ref.funder_id != *predecessor {
            return Err(KeypomError::NotFunder);
        }
        if !all_empty(&drop_ref.asset_by_id) {
            return Err(KeypomError::AssetsNotEmpty);
        }
        let ghost expected = deletion_pks(old(self).drop_by_id.value_of(drop_id@), public_keys, limit);
        let pks: Vec<PublicKey> = match public_keys {
            Some(v) => v,
            None => keys_for_deletion(drop_ref, limit),
        };
        let ghost s0 = self@;
        let ghost d0 = s0.drop_by_id[drop_id@];
        let ghost pv = str_seq(pks@);
        let ghost st0 = delete_start(s0, drop_id@);
        proof {
            assert(pv == expected);
        }
        let funder = drop_ref.funder_id.clone();
        let mut drop = match self.drop_by_id.remove(drop_id) {
            Some(d) => d,
            None => {
                return Err(KeypomError::DropNotFound);
            },
        };
        let mut total: u128 = 0;
        let mut i: usize = 0;
        while i < pks.len()
            invariant
                pv == str_seq(pks@),
                i <= pks@.len(),
                d0 == s0.drop_by_id[drop_id@],
                s0.drop_by_id.contains_key(drop_id@),
                st0 == delete_start(s0, drop_id@),
                funder@ == d0.funder_id,
                old(self)@ == s0,
                delete_keys_error(s0, predecessor@, drop_id@) is None,
                pv == deletion_pks(old(self).drop_by_id.value_of(drop_id@), public_keys, limit),
                delete_upto(st0, d0, block_timestamp, pv, i as int).1 is None,
                ({
                    let st = delete_upto(st0, d0, block_timestamp, pv, i as int).0;
                    &&& drop@ == (DropView { key_info_by_token_id: st.keys, ..d0 })
                    &&& total == st.total
                    &&& self@ == (KeypomView {
                        token_id_by_pk: st.tokens,
                        tokens_per_owner: st.owners,
                        drop_by_id: s0.drop_by_id.remove(drop_id@),
                        ..s0
                    })
                }),
            decreases pks@.len() - i,
        {
            let ghost st = delete_upto(st0, d0, block_timestamp, pv, i as int).0;
            let pk = &pks[i];
            proof {
                assert(pv[i as int] == pk@);
                assert(delete_upto(st0, d0, block_timestamp, pv, i + 1) == (match delete_step(st, d0, block_timestamp, pv[i as int]) {
                    Ok(st2) => (st2, None),
                    Err(err) => (st, Some(err)),
                }));
            }
            let token_id = match self.token_id_by_pk.get(pk) {
                Some(t) => t.clone(),
                None => {
                    proof {
                        lemma_delete_err_all(st0, d0, block_timestamp, pv, i + 1);
                    }
                    self.drop_by_id.insert(drop_id.clone(), drop);
                    proof {
                        assert(self@.drop_by_id =~= partial_delete_state(s0, drop_id@, st).drop_by_id);
                    }
                    return Err(KeypomError::KeyNotFound);
                },
            };
            let (owner, remaining) = match drop.key_info_by_token_id.get(&token_id) {
                Some(k) => (crate::types::clone_opt_str(&k.owner_id), k.remaining_uses),
                None => {
                    proof {
                        lemma_delete_err_all(st0, d0, block_timestamp, pv, i + 1);
                    }
                    self.drop_by_id.insert(drop_id.clone(), drop);
                    proof {
                        assert(self@.drop_by_id =~= partial_delete_state(s0, drop_id@, st).drop_by_id);
                    }
                    return Err(KeypomError::KeyNotFound);
                },
            };
            let owner_ok = match &owner {
                Some(o) => self.tokens_per_owner.contains_key(o),
                None => true,
            };
            if !owner_ok {
                proof {
                    lemma_delete_err_all(st0, d0, block_timestamp, pv, i + 1);
                }
                self.drop_by_id.insert(drop_id.clone(), drop);
                proof {
                    assert(self@.drop_by_id =~= partial_delete_state(s0, drop_id@, st).drop_by_id);
                }
                return Err(KeypomError::Unauthorized);
            }
            let cost = match get_total_costs_for_key(remaining, &drop.asset_by_id, &drop.asset_data_for_uses, block_timestamp) {
                Ok(c) => c,
                Err(e) => {
                    proof {
                        lemma_delete_err_all(st0, d0, block_timestamp, pv, i + 1);
                    }
                    self.drop_by_id.insert(drop_id.clone(), drop);
                    proof {
                        assert(self@.drop_by_id =~= partial_delete_state(s0, drop_id@, st).drop_by_id);
                    }
                    return Err(e);
                },
            };
            let new_total = match total.checked_add(cost) {
                Some(v) => v,
                None => {
                    proof {
                        lemma_delete_err_all(st0, d0, block_timestamp, pv, i + 1);
                    }
                    self.drop_by_id.insert(drop_id.clone(), drop);
                    proof {
                        assert(self@.drop_by_id =~= partial_delete_state(s0, drop_id@, st).drop_by_id);
                    }
                    return Err(KeypomError::Overflow);
                },
            };
            proof {
                assert(token_id@ == st.tokens[pk@]);
                assert(st.keys.contains_key(token_id@));
                assert(crate::state::opt_view(owner) == st.keys[token_id@].owner_id);
                assert(remaining == st.keys[token_id@].remaining_uses);
            }
            self.token_id_by_pk.remove(pk);
            drop.key_info_by_token_id.remove(&token_id);
            match &owner {
                Some(o) => {
                    let res = self.internal_remove_token_from_owner(o, &token_id);
                    proof {
                        assert(res is Ok);
                    }
                },
                None => {},
            }
            total = new_total;
            proof {
                let st2 = delete_upto(st0, d0, block_timestamp, pv, i + 1).0;
                assert(drop.key_info_by_token_id@ =~= st2.keys);
                assert(self.token_id_by_pk@ =~= st2.tokens);
            }
            i = i + 1;
        }
        let ghost st = delete_upto(st0, d0, block_timestamp, pv, pks@.len() as int).0;
        let keep = match keep_empty_drop {
            Some(b) => b,
            None => false,
        };
        if drop.key_info_by_token_id.is_empty() && !keep {
            proof {
                assert(self@.drop_by_id == finish_delete(s0, drop_id@, st, keep).0.drop_by_id);
            }
            self.internal_remove_drop_for_funder(&funder, drop_id)?;
        } else {
            self.drop_by_id.insert(drop_id.clone(), drop);
            proof {
                assert(self@.drop_by_id =~= finish_delete(s0, drop_id@, st, keep).0.drop_by_id);
            }
        }
        self.internal_modify_user_balance(&funder, total, false)?;
        Ok(pks)
    }
}

/// A refusal met after `k` keys stops the whole deletion there.
pub proof fn lemma_delete_err_all(st0: DeleteState, d: DropView, now: u64, pks: Seq<Seq<char>>, k: int)
    requires
        0 <= k <= pks.len(),
        delete_upto(st0, d, now, pks, k).1 is Some,
    ensures
        delete_upto(st0, d, now, pks, pks.len() as int) == delete_upto(st0, d, now, pks, k),
    decreases pks.len() - k,
{
    if k < pks.len() {
        lemma_delete_err_all(st0, d, now, pks, k + 1);
    }
}


/// How many keys a deletion without a list of keys takes: the first `limit` keys of the drop in
/// its listing order (100 when no limit is given), all of them where there are fewer; each
/// public key returned is that of the key at its place.
pub proof fn lemma_deletion_takes_limit(drop: InternalDrop, limit: Option<u8>)
    ensures
        ({
            let n = drop.key_info_by_token_id.key_seq().len() as int;
            let l = match limit {
                Some(x) => x as int,
                None => 100int,
            };
            let pks = deletion_pks(drop, None, limit);
            &&& pks.len() == if l < n {
                l
            } else {
                n
            }
            &&& forall|i: int| 0 <= i < pks.len() ==> #[trigger] pks[i]
                == drop.key_info_by_token_id@[drop.key_info_by_token_id.key_seq()[i]].pub_key
        }),
{
}

} // verus!
