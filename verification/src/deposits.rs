//! Non-fungible tokens that funders send into their drops, and their withdrawal.

use vstd::prelude::*;
use crate::assets::{lemma_first_index_in, remaining_after, str_seq, AssetClaim, AssetView, InternalAsset, NFTDataView};
use crate::state::{modify_balance_spec, DropView, Keypom, KeypomView};
use crate::types::{AccountId, AssetId, Balance, DropId, KeypomError, TokenId};

verus! {

/// The refusal met when a token arrives for a drop, if any: the drop must exist, the sender must
/// be its funder and the asset (the token contract) must be one of the drop's.
pub open spec fn nft_deposit_error(s: KeypomView, asset_id: Seq<char>, sender_id: Seq<char>, drop_id: Seq<char>) -> Option<
    KeypomError,
> {
    if !s.drop_by_id.contains_key(drop_id) {
        Some(KeypomError::DropNotFound)
    } else if s.drop_by_id[drop_id].funder_id != sender_id {
        Some(KeypomError::NotFunder)
    } else if !s.drop_by_id[drop_id].asset_by_id.contains_key(asset_id) {
        Some(KeypomError::AssetNotFound)
    } else {
        None
    }
}

/// An asset after a token arrives: a non-fungible token asset gets it at the end of its list.
pub open spec fn asset_with_token(a: AssetView, token_id: Seq<char>) -> AssetView {
    match a {
        AssetView::nft(d) => AssetView::nft(NFTDataView { token_ids: d.token_ids.push(token_id), ..d }),
        _ => a,
    }
}

/// The state with one asset of a drop replaced.
pub open spec fn with_asset(s: KeypomView, drop_id: Seq<char>, asset_id: Seq<char>, a: AssetView) -> KeypomView {
    let d = s.drop_by_id[drop_id];
    KeypomView {
        drop_by_id: s.drop_by_id.insert(drop_id, DropView { asset_by_id: d.asset_by_id.insert(asset_id, a), ..d }),
        ..s
    }
}

/// The tokens a withdrawal takes: those given, or the last `limit` of the asset's list (all of
/// them by default), newest first.
pub open spec fn withdrawal_tokens(ids: Seq<Seq<char>>, token_ids: Option<Seq<Seq<char>>>, limit: Option<u8>) -> Seq<
    Seq<char>,
> {
    match token_ids {
        Some(t) => t,
        None => {
            let count = withdrawal_count(ids, limit);
            Seq::new(count as nat, |i: int| ids[ids.len() - 1 - i])
        },
    }
}

/// How many tokens a withdrawal without a list takes.
pub open spec fn withdrawal_count(ids: Seq<Seq<char>>, limit: Option<u8>) -> int {
    match limit {
        Some(l) => l as int,
        None => ids.len() as int,
    }
}

/// The refusal met when a funder withdraws tokens, if any.
pub open spec fn withdraw_error(
    s: KeypomView,
    predecessor: Seq<char>,
    drop_id: Seq<char>,
    asset_id: Seq<char>,
    token_ids: Option<Seq<Seq<char>>>,
    limit: Option<u8>,
) -> Option<KeypomError> {
    if !s.drop_by_id.contains_key(drop_id) {
        Some(KeypomError::DropNotFound)
    } else if s.drop_by_id[drop_id].funder_id != predecessor {
        Some(KeypomError::NotFunder)
    } else if !s.drop_by_id[drop_id].asset_by_id.contains_key(asset_id) {
        Some(KeypomError::AssetNotFound)
    } else {
        match s.drop_by_id[drop_id].asset_by_id[asset_id] {
            AssetView::nft(d) => if token_ids is None && (d.token_ids.len() == 0 || withdrawal_count(d.token_ids, limit)
                > d.token_ids.len()) {
                Some(KeypomError::TokenNotFound)
            } else {
                let w = withdrawal_tokens(d.token_ids, token_ids, limit);
                if forall|i: int| 0 <= i < w.len() ==> remaining_after(d.token_ids, w.take(i)).contains(#[trigger] w[i]) {
                    None
                } else {
                    Some(KeypomError::TokenNotFound)
                }
            },
            _ => None,
        }
    }
}

/// The text views of an optional list of strings.
pub open spec fn opt_strs(o: Option<Vec<String>>) -> Option<Seq<Seq<char>>> {
    match o {
        Some(v) => Some(str_seq(v@)),
        None => None,
    }
}

/// What a withdrawal hands on: the batch of transfers back to the funder (none when the asset
/// holds no non-fungible tokens) and the tokens it takes.
pub struct NftWithdrawal {
    /// The transfers back to the funder.
    pub refund: Option<AssetClaim>,
    /// The tokens taken.
    pub token_ids: Vec<TokenId>,
}

impl Keypom {
    /// A non-fungible token arrives for a drop from its funder (`msg` names the drop; the token
    /// contract is the caller). The token becomes claimable. Returns `false`: the token is kept.
    pub fn nft_on_transfer(&mut self, predecessor: &AccountId, token_id: &TokenId, sender_id: &AccountId, msg: &DropId) -> (r:
        Result<bool, KeypomError>)
        ensures
            match nft_deposit_error(old(self)@, predecessor@, sender_id@, msg@) {
                Some(e) => r matches Err(x) && x == e && final(self)@ == old(self)@,
                None => r == Ok::<bool, KeypomError>(false) && final(self)@ == with_asset(
                    old(self)@,
                    msg@,
                    predecessor@,
                    asset_with_token(old(self)@.drop_by_id[msg@].asset_by_id[predecessor@], token_id@),
                ),
            },
    {
        let drop_ref = match self.drop_by_id.get(msg) {
            Some(d) => d,
            None => {
                return Err(KeypomError::DropNotFound);
            },
        };
        if drop_ref.funder_id != *sender_id {
            return Err(KeypomError::NotFunder);
        }
        if !drop_ref.asset_by_id.contains_key(predecessor) {
            return Err(KeypomError::AssetNotFound);
        }
        let ghost s0 = self@;
        let ghost d0 = s0.drop_by_id[msg@];
        let mut drop = match self.drop_by_id.remove(msg) {
            Some(d) => d,
            None => {
                return Err(KeypomError::DropNotFound);
            },
        };
        let mut asset = match drop.asset_by_id.remove(predecessor) {
            Some(a) => a,
            None => {
                proof {
                    assert(false);
                }
                return Err(KeypomError::AssetNotFound);
            },
        };
        if let InternalAsset::nft(n) = &mut asset {
            n.add_to_token_ids(token_id);
        }
        let ghost a2 = asset@;
        proof {
            assert(a2 == asset_with_token(d0.asset_by_id[predecessor@], token_id@));
        }
        drop.asset_by_id.insert(predecessor.clone(), asset);
        proof {
            assert(drop.asset_by_id@ =~= d0.asset_by_id.insert(predecessor@, a2));
        }
        self.drop_by_id.insert(msg.clone(), drop);
        proof {
            assert(self@.drop_by_id =~= with_asset(s0, msg@, predecessor@, a2).drop_by_id);
        }
        Ok(false)
    }

    /// Charge the storage a call added to an account's balance.
    pub fn charge_used_storage(
        &mut self,
        account_id: &AccountId,
        initial_storage: u64,
        final_storage: u64,
        storage_byte_cost: Balance,
    ) -> (r: Result<(), KeypomError>)
        ensures
            final_storage <= initial_storage ==> r is Ok && final(self)@ == old(self)@,
            final_storage > initial_storage ==> ({
                let amount = (final_storage - initial_storage) * storage_byte_cost;
                if amount > u128::MAX {
                    r == Err::<(), KeypomError>(KeypomError::Overflow) && final(self)@ == old(self)@
                } else {
                    match modify_balance_spec(old(self)@, account_id@, amount as u128, true) {
                        Some(s) => r is Ok && final(self)@ == s,
                        None => r == Err::<(), KeypomError>(KeypomError::InsufficientBalance)
                            && final(self)@ == old(self)@,
                    }
                }
            }),
    {
        if final_storage <= initial_storage {
            return Ok(());
        }
        let bytes = (final_storage - initial_storage) as u128;
        let amount = match bytes.checked_mul(storage_byte_cost) {
            Some(a) => a,
            None => {
                return Err(KeypomError::Overflow);
            },
        };
        self.internal_modify_user_balance(account_id, amount, true)
    }

    /// A funder takes non-fungible tokens back out of a drop: the tokens given, or the newest ones
    /// up to the limit. They leave the asset and a batch of transfers to the funder is returned.
    /// Refused as `withdraw_error` describes, changing nothing.
    pub fn withdraw_nft_tokens(
        &mut self,
        predecessor: &AccountId,
        drop_id: &DropId,
        nft_contract_id: &AccountId,
        token_ids: Option<Vec<TokenId>>,
        limit: Option<u8>,
    ) -> (r: Result<NftWithdrawal, KeypomError>)
        ensures
            ({
                let given = opt_strs(token_ids);
                match withdraw_error(old(self)@, predecessor@, drop_id@, nft_contract_id@, given, limit) {
                    Some(e) => r matches Err(x) && x == e && final(self)@ == old(self)@,
                    None => match old(self)@.drop_by_id[drop_id@].asset_by_id[nft_contract_id@] {
                        AssetView::nft(d) => {
                            let w = withdrawal_tokens(d.token_ids, given, limit);
                            &&& r matches Ok(out)
                            &&& str_seq(out.token_ids@) == w
                            &&& out.refund matches Some(AssetClaim::NftRefund { contract_id, receiver_id, token_ids: ts })
                            &&& contract_id@ == d.contract_id && receiver_id@ == predecessor@ && str_seq(ts@) == w
                            &&& final(self)@ == with_asset(
                                old(self)@,
                                drop_id@,
                                nft_contract_id@,
                                AssetView::nft(NFTDataView { token_ids: remaining_after(d.token_ids, w), ..d }),
                            )
                        },
                        _ => r matches Ok(out) && out.refund is None && out.token_ids@.len() == 0 && final(self)@
                            == old(self)@,
                    },
                }
            }),
    {
        let ghost given = opt_strs(token_ids);
        let drop_ref = match self.drop_by_id.get(drop_id) {
            Some(d) => d,
            None => {
                return Err(KeypomError::DropNotFound);
            },
        };
        if drop_ref.funder_id != *predecessor {
            return Err(KeypomError::NotFunder);
        }
        let asset_ref = match drop_ref.asset_by_id.get(nft_contract_id) {
            Some(a) => a,
            None => {
                return Err(KeypomError::AssetNotFound);
            },
        };
        let nft = match asset_ref {
            InternalAsset::nft(n) => n,
            _ => {
                return Ok(NftWithdrawal { refund: None, token_ids: Vec::new() });
            },
        };
        let tokens: Vec<TokenId> = match token_ids {
            Some(v) => v,
            None => {
                let n = nft.token_ids.len();
                let count: usize = match limit {
                    Some(l) => l as usize,
                    None => n,
                };
                if n == 0 || count > n {
                    return Err(KeypomError::TokenNotFound);
                }
                let ghost ids = nft@.token_ids;
                let mut out: Vec<TokenId> = Vec::new();
                let mut idx: usize = 0;
                while idx < count
                    invariant
                        n == nft.token_ids@.len(),
                        ids == nft@.token_ids,
                        count <= n,
                        idx <= count,
                        str_seq(out@) == Seq::new(idx as nat, |i: int| ids[ids.len() - 1 - i]),
                    decreases count - idx,
                {
                    let t = nft.token_ids[n - 1 - idx].clone();
                    let ghost before = out@;
                    out.push(t);
                    proof {
                        assert(str_seq(out@) =~= str_seq(before).push(t@));
                        assert(str_seq(out@) =~= Seq::new((idx + 1) as nat, |i: int| ids[ids.len() - 1 - i]));
                    }
                    idx = idx + 1;
                }
                out
            },
        };
        proof {
            assert(str_seq(tokens@) == withdrawal_tokens(nft@.token_ids, given, limit));
        }
        if !nft.can_refund(&tokens) {
            proof {
                let w = str_seq(tokens@);
                let i = choose|i: int|
                    0 <= i < tokens@.len() && !remaining_after(nft@.token_ids, str_seq(tokens@).take(i)).contains(
                        tokens@[i]@,
                    );
                assert(w[i] == tokens@[i]@);
                assert(!remaining_after(nft@.token_ids, w.take(i)).contains(w[i]));
            }
            return Err(KeypomError::TokenNotFound);
        }
        let ghost s0 = self@;
        let ghost d0 = s0.drop_by_id[drop_id@];
        let mut drop = match self.drop_by_id.remove(drop_id) {
            Some(d) => d,
            None => {
                return Err(KeypomError::DropNotFound);
            },
        };
        let mut asset = match drop.asset_by_id.remove(nft_contract_id) {
            Some(a) => a,
            None => {
                proof {
                    assert(false);
                }
                return Err(KeypomError::AssetNotFound);
            },
        };
        let kept = tokens.clone();
        let refund = match &mut asset {
            InternalAsset::nft(n) => Some(n.nft_refund(predecessor, tokens)),
            _ => None,
        };
        let ghost a2 = asset@;
        drop.asset_by_id.insert(nft_contract_id.clone(), asset);
        proof {
            assert(drop.asset_by_id@ =~= d0.asset_by_id.insert(nft_contract_id@, a2));
        }
        self.drop_by_id.insert(drop_id.clone(), drop);
        proof {
            assert(self@.drop_by_id =~= with_asset(s0, drop_id@, nft_contract_id@, a2).drop_by_id);
        }
        Ok(NftWithdrawal { refund, token_ids: kept })
    }

    /// After a withdrawal's transfers: when they failed, the tokens go back to the asset.
    /// Returns whether they succeeded.
    pub fn resolve_nft_refund(&mut self, drop_id: &DropId, asset_id: &AssetId, token_ids: &Vec<TokenId>, succeeded: bool) -> (r:
        Result<bool, KeypomError>)
        ensures
            !old(self)@.drop_by_id.contains_key(drop_id@) ==> (r matches Err(x) && x == KeypomError::DropNotFound
                && final(self)@ == old(self)@),
            old(self)@.drop_by_id.contains_key(drop_id@) && !old(self)@.drop_by_id[drop_id@].asset_by_id.contains_key(
                asset_id@,
            ) ==> (r matches Err(x) && x == KeypomError::AssetNotFound && final(self)@ == old(self)@),
            old(self)@.drop_by_id.contains_key(drop_id@) && old(self)@.drop_by_id[drop_id@].asset_by_id.contains_key(
                asset_id@,
            ) ==> {
                let a = old(self)@.drop_by_id[drop_id@].asset_by_id[asset_id@];
                &&& r == Ok::<bool, KeypomError>(succeeded)
                &&& (succeeded || !(a is nft)) ==> final(self)@ == old(self)@
                &&& (!succeeded && a is nft) ==> final(self)@ == with_asset(
                    old(self)@,
                    drop_id@,
                    asset_id@,
                    AssetView::nft(NFTDataView { token_ids: a->nft_0.token_ids + str_seq(token_ids@), ..a->nft_0 }),
                )
            },
    {
        let drop_ref = match self.drop_by_id.get(drop_id) {
            Some(d) => d,
            None => {
                return Err(KeypomError::DropNotFound);
            },
        };
        let is_nft = match drop_ref.asset_by_id.get(asset_id) {
            Some(InternalAsset::nft(_)) => true,
            Some(_) => false,
            None => {
                return Err(KeypomError::AssetNotFound);
            },
        };
        if succeeded || !is_nft {
            return Ok(succeeded);
        }
        let ghost s0 = self@;
        let ghost d0 = s0.drop_by_id[drop_id@];
        let mut drop = match self.drop_by_id.remove(drop_id) {
            Some(d) => d,
            None => {
                return Err(KeypomError::DropNotFound);
            },
        };
        let mut asset = match drop.asset_by_id.remove(asset_id) {
            Some(a) => a,
            None => {
                proof {
                    assert(false);
                }
                return Err(KeypomError::AssetNotFound);
            },
        };
        let ghost a0 = asset@;
        if let InternalAsset::nft(n) = &mut asset {
            let mut i: usize = 0;
            while i < token_ids.len()
                invariant
                    i <= token_ids@.len(),
                    a0 is nft,
                    n@.contract_id == a0->nft_0.contract_id,
                    n@.token_ids == a0->nft_0.token_ids + str_seq(token_ids@).take(i as int),
                decreases token_ids@.len() - i,
            {
                n.add_to_token_ids(&token_ids[i]);
                proof {
                    assert(n@.token_ids =~= a0->nft_0.token_ids + str_seq(token_ids@).take(i + 1));
                }
                i = i + 1;
            }
            proof {
                assert(str_seq(token_ids@).take(token_ids@.len() as int) =~= str_seq(token_ids@));
            }
        }
        let ghost a2 = asset@;
        drop.asset_by_id.insert(asset_id.clone(), asset);
        proof {
            assert(drop.asset_by_id@ =~= d0.asset_by_id.insert(asset_id@, a2));
        }
        self.drop_by_id.insert(drop_id.clone(), drop);
        proof {
            assert(self@.drop_by_id =~= with_asset(s0, drop_id@, asset_id@, a2).drop_by_id);
        }
        Ok(false)
    }

    /// Refund to a funder the storage a withdrawal released, less what its resolution took back.
    pub fn refund_released_storage(
        &mut self,
        funder_id: &AccountId,
        storage_released: u128,
        net_storage_added: u64,
        storage_byte_cost: Balance,
    ) -> (r: Result<(), KeypomError>)
        ensures
            ({
                let bytes = if storage_released >= net_storage_added {
                    storage_released - net_storage_added
                } else {
                    0
                };
                let amount = bytes * storage_byte_cost;
                if amount > u128::MAX {
                    r == Err::<(), KeypomError>(KeypomError::Overflow) && final(self)@ == old(self)@
                } else {
                    match modify_balance_spec(old(self)@, funder_id@, amount as u128, false) {
                        Some(s) => r is Ok && final(self)@ == s,
                        None => r == Err::<(), KeypomError>(KeypomError::Overflow) && final(self)@ == old(self)@,
                    }
                }
            }),
    {
        let bytes = match storage_released.checked_sub(net_storage_added as u128) {
            Some(b) => b,
            None => 0,
        };
        let amount = match bytes.checked_mul(storage_byte_cost) {
            Some(a) => a,
            None => {
                return Err(KeypomError::Overflow);
            },
        };
        self.internal_modify_user_balance(funder_id, amount, false)
    }
}


/// What a withdrawal without a list of tokens takes: with a limit `l` (at most the number of
/// tokens) exactly `l` tokens, without one all of them; in both cases the newest first, that is
/// the last tokens of the asset's list in reverse order.
pub proof fn lemma_withdrawal_takes_limit(ids: Seq<Seq<char>>, limit: Option<u8>)
    ensures
        ({
            let w = withdrawal_tokens(ids, None, limit);
            &&& limit is Some && limit.unwrap() <= ids.len() ==> w.len() == limit.unwrap()
            &&& limit is None ==> w.len() == ids.len()
            &&& (limit is None || limit.unwrap() <= ids.len()) ==> forall|i: int|
                0 <= i < w.len() ==> #[trigger] w[i] == ids[ids.len() - 1 - i]
        }),
{
}

/// What stays after a withdrawal of the newest tokens: taking the last `l` tokens of a list of
/// distinct tokens (newest first) leaves the first ones, in order.
pub proof fn lemma_withdrawal_keeps_the_oldest(ids: Seq<Seq<char>>, l: int)
    requires
        0 <= l <= ids.len(),
        ids.no_duplicates(),
    ensures
        remaining_after(ids, Seq::new(l as nat, |i: int| ids[ids.len() - 1 - i])) == ids.take(ids.len() - l),
    decreases l,
{
    let w = Seq::new(l as nat, |i: int| ids[ids.len() - 1 - i]);
    if l == 0 {
        assert(ids.take(ids.len() as int) =~= ids);
    } else {
        let w0 = Seq::new((l - 1) as nat, |i: int| ids[ids.len() - 1 - i]);
        assert(w.drop_last() =~= w0);
        lemma_withdrawal_keeps_the_oldest(ids, l - 1);
        let rest = ids.take(ids.len() - (l - 1));
        let x = ids[ids.len() - l];
        assert(w.last() == x);
        assert forall|k: int| 0 <= k < ids.len() - l implies rest[k] != x by {
            assert(rest[k] == ids[k]);
        }
        lemma_first_index_in(rest, x, ids.len() - l);
        assert(rest.remove(ids.len() - l) =~= ids.take(ids.len() - l));
    }
}

} // verus!
