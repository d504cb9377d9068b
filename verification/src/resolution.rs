//! After a claim's checks: the transfers of the use's assets, the resolution of their results
//! (refunds of what failed), and the cleanup of used-up keys and emptied drops.

use vstd::prelude::*;
use crate::assets::{
    asset_is_empty, asset_refund, asset_refund_defined, fc_asset_prefix, AssetClaim, AssetView,
    InternalAsset, InternalFTData, NFTDataView,
};
use crate::claiming::{drop_of, key_of, lookup_error};
use crate::helpers::{contains_text, is_fc_asset_id};
use crate::state::{
    balance_in, opt_view, with_balance, DropView, FunderView, InternalDrop, Keypom, KeypomView,
};
use crate::token_id::{has_colon, parse_token_id};
use crate::types::{AccountId, Balance, DropId, KeypomError, TokenId};
use crate::uses::{data_for_use_spec, get_asset_data_for_specific_use, meta_result, MetadataView};

verus! {

/// The use whose assets a claim in progress transfers (its uses were already decremented).
pub open spec fn claimed_use(d: DropView, t: Seq<char>) -> int {
    d.max_key_uses - d.key_info_by_token_id[t].remaining_uses
}

/// The metadata of the use a claim in progress transfers.
pub open spec fn claimed_metadata(s: KeypomView, t: Seq<char>) -> Seq<MetadataView> {
    let d = s.drop_by_id[drop_of(t)];
    data_for_use_spec(d.asset_data_for_uses, claimed_use(d, t)).assets_metadata
}

/// An asset after one claim: fungible tokens lose the amount when enough are available, a
/// non-fungible token leaves the list; other assets stay as they are.
pub open spec fn asset_after_claim(a: AssetView, tpu: Option<u128>) -> AssetView {
    match a {
        AssetView::ft(d) => if d.balance_avail >= tpu.unwrap() {
            AssetView::ft(InternalFTData { balance_avail: (d.balance_avail - tpu.unwrap()) as u128, ..d })
        } else {
            a
        },
        AssetView::nft(d) => if d.token_ids.len() == 0 {
            a
        } else {
            AssetView::nft(NFTDataView { token_ids: d.token_ids.drop_last(), ..d })
        },
        _ => a,
    }
}

/// The asset map after claiming the assets of a list of metadata in order.
pub open spec fn claimed_assets(m: Map<Seq<char>, AssetView>, ms: Seq<MetadataView>) -> Map<Seq<char>, AssetView>
    decreases ms.len(),
{
    if ms.len() == 0 {
        m
    } else {
        let p = claimed_assets(m, ms.drop_last());
        let x = ms.last();
        p.insert(x.asset_id, asset_after_claim(p[x.asset_id], x.tokens_per_use))
    }
}

/// Whether a transfer is the one a claim of an asset asks for.
pub open spec fn claim_matches(a: AssetView, tpu: Option<u128>, receiver: Seq<char>, r: Option<AssetClaim>) -> bool {
    match a {
        AssetView::ft(d) => if d.balance_avail >= tpu.unwrap() {
            r matches Some(AssetClaim::FungibleToken { contract_id, receiver_id, amount, registration_cost })
                && contract_id@ == d.contract_id@ && receiver_id@ == receiver && amount == tpu.unwrap()
                && registration_cost == d.registration_cost
        } else {
            r is None
        },
        AssetView::nft(d) => if d.token_ids.len() == 0 {
            r is None
        } else {
            r matches Some(AssetClaim::NonFungibleToken { contract_id, receiver_id, token_id })
                && contract_id@ == d.contract_id && receiver_id@ == receiver && token_id@
                == d.token_ids.last()
        },
        AssetView::fc(ms) => r matches Some(AssetClaim::FunctionCalls { receiver_id, methods })
            && receiver_id@ == receiver && methods@ == ms,
        AssetView::near => r matches Some(AssetClaim::Near { receiver_id, amount }) && receiver_id@
            == receiver && amount == tpu.unwrap(),
        AssetView::none => r is None,
    }
}

/// The token a claim of a non-fungible token asset transfers.
pub open spec fn next_nft_token(a: AssetView) -> Option<Seq<char>> {
    match a {
        AssetView::nft(d) => if d.token_ids.len() > 0 {
            Some(d.token_ids.last())
        } else {
            None
        },
        _ => None,
    }
}

/// Whether every asset of a list of metadata is stored and has its amount when it needs one.
pub open spec fn claimable(m: Map<Seq<char>, AssetView>, ms: Seq<MetadataView>) -> bool {
    forall|i: int|
        0 <= i < ms.len() ==> m.contains_key(#[trigger] ms[i].asset_id) && ((m[ms[i].asset_id] is ft
            || m[ms[i].asset_id] is near) ==> ms[i].tokens_per_use is Some)
}

/// Whether two assets are of the same kind.
pub open spec fn same_kind(a: AssetView, b: AssetView) -> bool {
    &&& (a is ft <==> b is ft)
    &&& (a is nft <==> b is nft)
    &&& (a is fc <==> b is fc)
    &&& (a is near <==> b is near)
    &&& (a is none <==> b is none)
}

/// Claims keep the stored asset IDs and the kind of every asset.
pub proof fn lemma_claimed_assets_keep(m: Map<Seq<char>, AssetView>, ms: Seq<MetadataView>)
    requires
        forall|i: int| 0 <= i < ms.len() ==> m.contains_key(#[trigger] ms[i].asset_id),
    ensures
        claimed_assets(m, ms).dom() == m.dom(),
        forall|k: Seq<char>| #[trigger] m.contains_key(k) ==> same_kind(claimed_assets(m, ms)[k], m[k]),
    decreases ms.len(),
{
    if ms.len() > 0 {
        assert forall|i: int| 0 <= i < ms.len() - 1 implies m.contains_key(#[trigger] ms.drop_last()[i].asset_id) by {
            assert(ms.drop_last()[i] == ms[i]);
        }
        lemma_claimed_assets_keep(m, ms.drop_last());
        assert(m.contains_key(ms[ms.len() - 1].asset_id));
        assert(claimed_assets(m, ms).dom() =~= m.dom());
    }
}

/// The first refusal met before the transfers of a claim in progress.
pub open spec fn claim_assets_error(s: KeypomView, t: Seq<char>) -> Option<KeypomError> {
    match lookup_error(s, t) {
        Some(e) => Some(e),
        None => {
            let d = s.drop_by_id[drop_of(t)];
            if key_of(s, t).remaining_uses > d.max_key_uses {
                Some(KeypomError::KeyNotFound)
            } else if !claimable(d.asset_by_id, claimed_metadata(s, t)) {
                Some(KeypomError::AssetNotFound)
            } else {
                None
            }
        },
    }
}

/// The transfers of a claim, one per asset of the use, and the non-fungible tokens they take.
pub struct ClaimPlan {
    /// The transfer each asset asks for, if any.
    pub claims: Vec<Option<AssetClaim>>,
    /// The token taken from each non-fungible token asset, for a refund if its transfer fails.
    pub token_ids_transferred: Vec<Option<TokenId>>,
}

/// Whether a plan holds, for each asset of the use, the transfer and the token its claim gives.
pub open spec fn claim_plan_ok(s: KeypomView, t: Seq<char>, receiver: Seq<char>, plan: ClaimPlan) -> bool {
    let d = s.drop_by_id[drop_of(t)];
    let ms = claimed_metadata(s, t);
    &&& plan.claims@.len() == ms.len()
    &&& plan.token_ids_transferred@.len() == ms.len()
    &&& forall|i: int|
        0 <= i < ms.len() ==> {
            let a = #[trigger] claimed_assets(d.asset_by_id, ms.take(i))[ms[i].asset_id];
            &&& claim_matches(a, ms[i].tokens_per_use, receiver, plan.claims@[i])
            &&& opt_view(plan.token_ids_transferred@[i]) == next_nft_token(a)
        }
}

/// The state after the assets of a claim in progress are claimed.
pub open spec fn claim_assets_state(s: KeypomView, t: Seq<char>) -> KeypomView {
    let d = s.drop_by_id[drop_of(t)];
    KeypomView {
        drop_by_id: s.drop_by_id.insert(
            drop_of(t),
            DropView { asset_by_id: claimed_assets(d.asset_by_id, claimed_metadata(s, t)), ..d },
        ),
        ..s
    }
}

impl Keypom {
    /// Claim the assets of the use a key is at for a receiver: each asset gives its transfer and
    /// is updated. Refused as `claim_assets_error` describes, changing nothing.
    pub fn internal_claim_assets(&mut self, token_id: &TokenId, receiver_id: &AccountId) -> (r: Result<
        ClaimPlan,
        KeypomError,
    >)
        ensures
            match claim_assets_error(old(self)@, token_id@) {
                Some(e) => r matches Err(x) && x == e && final(self)@ == old(self)@,
                None => r matches Ok(plan) && claim_plan_ok(old(self)@, token_id@, receiver_id@, plan)
                    && final(self)@ == claim_assets_state(old(self)@, token_id@),
            },
    {
        if !has_colon(token_id) {
            return Err(KeypomError::InvalidTokenId);
        }
        let (drop_id, _key_id) = match parse_token_id(token_id) {
            Ok(p) => p,
            Err(_) => {
                return Err(KeypomError::InvalidTokenId);
            },
        };
        let drop_ref = match self.drop_by_id.get(&drop_id) {
            Some(d) => d,
            None => {
                return Err(KeypomError::DropNotFound);
            },
        };
        let key_ref = match drop_ref.key_info_by_token_id.get(token_id) {
            Some(k) => k,
            None => {
                return Err(KeypomError::KeyNotFound);
            },
        };
        if key_ref.remaining_uses > drop_ref.max_key_uses {
            return Err(KeypomError::KeyNotFound);
        }
        let cur = drop_ref.max_key_uses - key_ref.remaining_uses;
        let data = get_asset_data_for_specific_use(&drop_ref.asset_data_for_uses, &cur);
        let ghost s0 = self@;
        let ghost d0 = s0.drop_by_id[drop_id@];
        let ghost ms = data@.assets_metadata;
        proof {
            assert(drop_of(token_id@) == drop_id@);
            assert(ms == claimed_metadata(s0, token_id@));
        }
        let n = data.assets_metadata.len();
        let mut i: usize = 0;
        while i < n
            invariant
                n == ms.len(),
                ms == data@.assets_metadata,
                ms.len() == data.assets_metadata@.len(),
                i <= n,
                drop_ref@ == d0,
                self@ == s0,
                d0 == s0.drop_by_id[drop_of(token_id@)],
                lookup_error(s0, token_id@) is None,
                key_of(s0, token_id@).remaining_uses <= d0.max_key_uses,
                ms == claimed_metadata(s0, token_id@),
                forall|j: int|
                    0 <= j < i ==> d0.asset_by_id.contains_key(#[trigger] ms[j].asset_id) && ((
                    d0.asset_by_id[ms[j].asset_id] is ft || d0.asset_by_id[ms[j].asset_id] is near)
                        ==> ms[j].tokens_per_use is Some),
            decreases n - i,
        {
            let m = &data.assets_metadata[i];
            proof {
                assert(ms[i as int] == data.assets_metadata@[i as int]@);
            }
            let ok = match drop_ref.asset_by_id.get(&m.asset_id) {
                Some(a) => match a {
                    InternalAsset::ft(_) => m.tokens_per_use.is_some(),
                    InternalAsset::near => m.tokens_per_use.is_some(),
                    _ => true,
                },
                None => false,
            };
            if !ok {
                proof {
                    assert(ms[i as int].asset_id == m.asset_id@);
                    assert(!(d0.asset_by_id.contains_key(ms[i as int].asset_id) && ((d0.asset_by_id[ms[i as int].asset_id] is ft
                        || d0.asset_by_id[ms[i as int].asset_id] is near) ==> ms[i as int].tokens_per_use is Some)));
                    assert(!claimable(d0.asset_by_id, ms));
                }
                return Err(KeypomError::AssetNotFound);
            }
            i = i + 1;
        }
        proof {
            assert(claimable(d0.asset_by_id, ms));
            lemma_claimed_assets_keep(d0.asset_by_id, ms);
        }
        let mut drop = match self.drop_by_id.remove(&drop_id) {
            Some(d) => d,
            None => {
                return Err(KeypomError::DropNotFound);
            },
        };
        let mut claims: Vec<Option<AssetClaim>> = Vec::new();
        let mut tids: Vec<Option<TokenId>> = Vec::new();
        let mut j: usize = 0;
        proof {
            assert(ms.take(0) =~= Seq::<MetadataView>::empty());
        }
        while j < n
            invariant
                n == ms.len(),
                ms == data@.assets_metadata,
                ms.len() == data.assets_metadata@.len(),
                j <= n,
                claimable(d0.asset_by_id, ms),
                drop@ == (DropView { asset_by_id: claimed_assets(d0.asset_by_id, ms.take(j as int)), ..d0 }),
                self@ == (KeypomView { drop_by_id: s0.drop_by_id.remove(drop_id@), ..s0 }),
                claims@.len() == j,
                tids@.len() == j,
                forall|q: int|
                    0 <= q < j ==> {
                        let a = #[trigger] claimed_assets(d0.asset_by_id, ms.take(q))[ms[q].asset_id];
                        &&& claim_matches(a, ms[q].tokens_per_use, receiver_id@, claims@[q])
                        &&& opt_view(tids@[q]) == next_nft_token(a)
                    },
            decreases n - j,
        {
            let m = &data.assets_metadata[j];
            let ghost before = claimed_assets(d0.asset_by_id, ms.take(j as int));
            proof {
                assert(ms[j as int] == data.assets_metadata@[j as int]@);
                assert(ms.take(j + 1).drop_last() =~= ms.take(j as int));
                assert(ms.take(j + 1).last() == ms[j as int]);
                lemma_claimed_assets_keep(d0.asset_by_id, ms.take(j as int));
                assert(d0.asset_by_id.contains_key(ms[j as int].asset_id));
                assert(same_kind(before[ms[j as int].asset_id], d0.asset_by_id[ms[j as int].asset_id]));
            }
            let mut asset = match drop.asset_by_id.remove(&m.asset_id) {
                Some(a) => a,
                None => {
                    proof {
                        assert(false);
                    }
                    return Err(KeypomError::AssetNotFound);
                },
            };
            let tid = match &asset {
                InternalAsset::nft(d) => d.get_next_token_id(),
                _ => None,
            };
            let c = asset.claim_asset(receiver_id, &m.tokens_per_use);
            let ghost after = asset@;
            drop.asset_by_id.insert(m.asset_id.clone(), asset);
            proof {
                assert(after == asset_after_claim(before[ms[j as int].asset_id], ms[j as int].tokens_per_use));
                assert(claim_matches(before[ms[j as int].asset_id], ms[j as int].tokens_per_use, receiver_id@, c));
                assert(drop.asset_by_id@ =~= claimed_assets(d0.asset_by_id, ms.take(j + 1)));
            }
            claims.push(c);
            tids.push(tid);
            proof {
                assert forall|q: int|
                    0 <= q < j + 1 implies {
                        let a = #[trigger] claimed_assets(d0.asset_by_id, ms.take(q))[ms[q].asset_id];
                        &&& claim_matches(a, ms[q].tokens_per_use, receiver_id@, claims@[q])
                        &&& opt_view(tids@[q]) == next_nft_token(a)
                    } by {
                    if q == j {
                        assert(claims@[q] == c);
                        assert(tids@[q] == tid);
                    }
                }
            }
            j = j + 1;
        }
        proof {
            assert(ms.take(n as int) =~= ms);
        }
        self.drop_by_id.insert(drop_id, drop);
        proof {
            assert(self@.drop_by_id =~= s0.drop_by_id.insert(
                drop_id@,
                DropView { asset_by_id: claimed_assets(d0.asset_by_id, ms), ..d0 },
            ));
        }
        Ok(ClaimPlan { claims, token_ids_transferred: tids })
    }
}

/// What the resolution of a claim's results has reached.
pub struct ResolveState {
    /// The drop's assets.
    pub assets: Map<Seq<char>, AssetView>,
    /// The funder's balance.
    pub balance: int,
    /// Whether the funder's balance was changed.
    pub touched: bool,
    /// Whether every transfer so far succeeded.
    pub success: bool,
    /// Whether every asset met so far is empty.
    pub empty: bool,
}

/// Why a failed transfer cannot be undone: fungible tokens or $NEAR without an amount, an amount
/// that does not fit back, or a non-fungible token without the token taken.
pub open spec fn failed_claim_error(a: AssetView, tpu: Option<u128>, tid: Option<Seq<char>>) -> Option<KeypomError> {
    match a {
        AssetView::ft(d) => if tpu is None {
            Some(KeypomError::AssetNotFound)
        } else if d.balance_avail + tpu.unwrap() > u128::MAX {
            Some(KeypomError::Overflow)
        } else {
            None
        },
        AssetView::near => if tpu is None {
            Some(KeypomError::AssetNotFound)
        } else {
            None
        },
        AssetView::nft(_) => if tid is None {
            Some(KeypomError::TokenNotFound)
        } else {
            None
        },
        _ => None,
    }
}

/// An asset after a failed transfer is undone: the tokens or the token are available again.
pub open spec fn asset_after_failure(a: AssetView, tpu: Option<u128>, tid: Option<Seq<char>>) -> AssetView {
    match a {
        AssetView::ft(d) => AssetView::ft(
            InternalFTData { balance_avail: (d.balance_avail + tpu.unwrap()) as u128, ..d },
        ),
        AssetView::nft(d) => AssetView::nft(NFTDataView { token_ids: d.token_ids.push(tid.unwrap()), ..d }),
        _ => a,
    }
}

/// $NEAR refunded to the funder for a failed transfer: the registration cost of fungible tokens,
/// the amount of $NEAR.
pub open spec fn failure_refund(a: AssetView, tpu: Option<u128>) -> int {
    match a {
        AssetView::ft(d) => d.registration_cost as int,
        AssetView::near => tpu.unwrap() as int,
        _ => 0,
    }
}

/// One step of resolution: function calls are never refunded; a success records whether the
/// asset is empty; a failure is undone and refunded to the funder.
pub open spec fn resolve_one(st: ResolveState, m: MetadataView, ok: bool, tid: Option<Seq<char>>) -> Result<
    ResolveState,
    KeypomError,
> {
    if contains_text(m.asset_id, fc_asset_prefix()) {
        Ok(ResolveState { success: st.success && ok, ..st })
    } else if !st.assets.contains_key(m.asset_id) {
        Err(KeypomError::AssetNotFound)
    } else {
        let a = st.assets[m.asset_id];
        if ok {
            Ok(ResolveState { empty: st.empty && asset_is_empty(a), ..st })
        } else {
            match failed_claim_error(a, m.tokens_per_use, tid) {
                Some(e) => Err(e),
                None => {
                    let r = failure_refund(a, m.tokens_per_use);
                    if r > 0 && st.balance + r > u128::MAX {
                        Err(KeypomError::Overflow)
                    } else {
                        let a2 = asset_after_failure(a, m.tokens_per_use, tid);
                        Ok(
                            ResolveState {
                                assets: st.assets.insert(m.asset_id, a2),
                                balance: st.balance + r,
                                touched: st.touched || r > 0,
                                success: false,
                                empty: st.empty && asset_is_empty(a2),
                            },
                        )
                    }
                },
            }
        }
    }
}

/// Resolution of the first `k` results: the state reached, and the refusal that stopped it.
pub open spec fn resolve_upto(
    st0: ResolveState,
    ms: Seq<MetadataView>,
    oks: Seq<bool>,
    tids: Seq<Option<Seq<char>>>,
    k: int,
) -> (ResolveState, Option<KeypomError>)
    decreases k,
{
    if k <= 0 {
        (st0, None)
    } else {
        let (st, e) = resolve_upto(st0, ms, oks, tids, k - 1);
        if e is Some {
            (st, e)
        } else {
            match resolve_one(st, ms[k - 1], oks[k - 1], tids[k - 1]) {
                Ok(st2) => (st2, None),
                Err(err) => (st, Some(err)),
            }
        }
    }
}

/// The text views of a list of optional strings.
pub open spec fn opt_views(v: Seq<Option<String>>) -> Seq<Option<Seq<char>>> {
    v.map_values(|o: Option<String>| opt_view(o))
}

/// The state with a resolution applied: the drop's assets and the funder's balance.
pub open spec fn resolved_state(s: KeypomView, drop_id: Seq<char>, funder: Seq<char>, st: ResolveState) -> KeypomView {
    let d = s.drop_by_id[drop_id];
    KeypomView {
        drop_by_id: s.drop_by_id.insert(drop_id, DropView { asset_by_id: st.assets, ..d }),
        funder_info_by_id: if st.touched {
            with_balance(s.funder_info_by_id, funder, st.balance as u128)
        } else {
            s.funder_info_by_id
        },
        ..s
    }
}

/// The state after cleaning a key up: a key without uses leaves its drop, and a drop left
/// without keys and with empty assets leaves the contract.
pub open spec fn cleanup_state(s: KeypomView, drop_id: Seq<char>, t: Seq<char>, drop_empty: bool) -> KeypomView {
    let d = s.drop_by_id[drop_id];
    if d.key_info_by_token_id[t].remaining_uses == 0 {
        let keys = d.key_info_by_token_id.remove(t);
        if keys.dom().len() == 0 && drop_empty {
            KeypomView { drop_by_id: s.drop_by_id.remove(drop_id), ..s }
        } else {
            KeypomView { drop_by_id: s.drop_by_id.insert(drop_id, DropView { key_info_by_token_id: keys, ..d }), ..s }
        }
    } else {
        s
    }
}

/// The first refusal met when looking up a claim in progress.
pub open spec fn claimed_key_error(s: KeypomView, t: Seq<char>) -> Option<KeypomError> {
    match lookup_error(s, t) {
        Some(e) => Some(e),
        None => if key_of(s, t).remaining_uses > s.drop_by_id[drop_of(t)].max_key_uses {
            Some(KeypomError::KeyNotFound)
        } else {
            None
        },
    }
}

/// Balances set twice keep the second.
pub proof fn lemma_with_balance_twice(m: Map<Seq<char>, FunderView>, a: Seq<char>, b1: u128, b2: u128)
    ensures
        with_balance(with_balance(m, a, b1), a, b2) == with_balance(m, a, b2),
        balance_in(with_balance(m, a, b1), a) == b1,
{
    assert(with_balance(with_balance(m, a, b1), a, b2) =~= with_balance(m, a, b2));
}

/// Why undoing a failed transfer is refused, if it is.
fn failed_claim_check(a: &InternalAsset, tpu: &Option<u128>, tid: &Option<TokenId>) -> (r: Option<KeypomError>)
    ensures
        r == failed_claim_error(a@, *tpu, opt_view(*tid)),
{
    match a {
        InternalAsset::ft(d) => match tpu {
            None => Some(KeypomError::AssetNotFound),
            Some(t) => if d.balance_avail > u128::MAX - *t {
                Some(KeypomError::Overflow)
            } else {
                None
            },
        },
        InternalAsset::near => if tpu.is_none() {
            Some(KeypomError::AssetNotFound)
        } else {
            None
        },
        InternalAsset::nft(_) => if tid.is_none() {
            Some(KeypomError::TokenNotFound)
        } else {
            None
        },
        _ => None,
    }
}

/// The $NEAR refunded for a failed transfer of an asset.
fn failure_refund_amount(a: &InternalAsset, tpu: &Option<u128>) -> (r: u128)
    requires
        (a@ is near) ==> tpu is Some,
    ensures
        r == failure_refund(a@, *tpu),
{
    match a {
        InternalAsset::ft(d) => d.registration_cost,
        InternalAsset::near => tpu.unwrap(),
        _ => 0,
    }
}

impl Keypom {
    /// Remove a used-up key from its drop, and the drop when it is left without keys and its
    /// assets are empty.
    pub fn handle_key_cleanup(&mut self, token_id: &TokenId, drop_id: &DropId, is_drop_empty: bool)
        requires
            old(self)@.drop_by_id.contains_key(drop_id@),
            old(self)@.drop_by_id[drop_id@].key_info_by_token_id.contains_key(token_id@),
        ensures
            final(self)@ == cleanup_state(old(self)@, drop_id@, token_id@, is_drop_empty),
    {
        let ghost s0 = self@;
        let mut drop = match self.drop_by_id.remove(drop_id) {
            Some(d) => d,
            None => {
                return;
            },
        };
        let remaining = match drop.key_info_by_token_id.get(token_id) {
            Some(k) => k.remaining_uses,
            None => 1,
        };
        if remaining == 0 {
            drop.key_info_by_token_id.remove(token_id);
            if drop.key_info_by_token_id.is_empty() && is_drop_empty {
                return;
            }
            self.drop_by_id.insert(drop_id.clone(), drop);
            proof {
                assert(self@.drop_by_id =~= cleanup_state(s0, drop_id@, token_id@, is_drop_empty).drop_by_id);
            }
        } else {
            self.drop_by_id.insert(drop_id.clone(), drop);
            proof {
                assert(self@.drop_by_id =~= s0.drop_by_id);
            }
        }
    }

    /// Refund the storage freed by a call to a funder's balance.
    pub fn refund_freed_storage(
        &mut self,
        funder_id: &AccountId,
        initial_storage: u64,
        final_storage: u64,
        storage_byte_cost: Balance,
    ) -> (r: Result<(), KeypomError>)
        ensures
            final_storage >= initial_storage ==> r is Ok && final(self)@ == old(self)@,
            final_storage < initial_storage ==> ({
                let amount = (initial_storage - final_storage) * storage_byte_cost;
                if amount > u128::MAX {
                    r == Err::<(), KeypomError>(KeypomError::Overflow) && final(self)@ == old(self)@
                } else {
                    match crate::state::modify_balance_spec(old(self)@, funder_id@, amount as u128, false) {
                        Some(s) => r is Ok && final(self)@ == s,
                        None => r == Err::<(), KeypomError>(KeypomError::Overflow) && final(self)@ == old(self)@,
                    }
                }
            }),
    {
        if final_storage >= initial_storage {
            return Ok(());
        }
        let bytes = (initial_storage - final_storage) as u128;
        let amount = match bytes.checked_mul(storage_byte_cost) {
            Some(a) => a,
            None => {
                return Err(KeypomError::Overflow);
            },
        };
        self.internal_modify_user_balance(funder_id, amount, false)
    }
}

/// The starting point of the resolution of a claim in progress.
pub open spec fn resolve_start(s: KeypomView, t: Seq<char>) -> ResolveState {
    let d = s.drop_by_id[drop_of(t)];
    ResolveState {
        assets: d.asset_by_id,
        balance: balance_in(s.funder_info_by_id, d.funder_id),
        touched: false,
        success: true,
        empty: true,
    }
}

/// What the resolution of all results of a claim in progress reaches.
pub open spec fn resolve_all(s: KeypomView, t: Seq<char>, oks: Seq<bool>, tids: Seq<Option<Seq<char>>>) -> (
    ResolveState,
    Option<KeypomError>,
) {
    let ms = claimed_metadata(s, t);
    resolve_upto(resolve_start(s, t), ms, oks, tids, ms.len() as int)
}

impl Keypom {
    /// Resolve the transfers of a claim given whether each succeeded (one result per asset of the
    /// use, function calls included): failed transfers are undone and refunded to the funder,
    /// then a used-up key is cleaned up. Returns whether every transfer succeeded. Refused before
    /// any change when the key cannot be found or the results do not match the assets; a refusal
    /// met while resolving (`resolve_all`) keeps what was resolved before it, and the caller
    /// aborts the call.
    pub fn on_assets_claimed(
        &mut self,
        token_id: &TokenId,
        token_ids_transferred: &Vec<Option<TokenId>>,
        results: &Vec<bool>,
    ) -> (r: Result<bool, KeypomError>)
        ensures
            match claimed_key_error(old(self)@, token_id@) {
                Some(e) => r matches Err(x) && x == e && final(self)@ == old(self)@,
                None => {
                    let s = old(self)@;
                    let t = token_id@;
                    let ms = claimed_metadata(s, t);
                    let funder = s.drop_by_id[drop_of(t)].funder_id;
                    if results@.len() != ms.len() || token_ids_transferred@.len() != ms.len() {
                        r matches Err(x) && x == KeypomError::PromiseResultsMismatch && final(self)@ == s
                    } else {
                        let (st, e) = resolve_all(s, t, results@, opt_views(token_ids_transferred@));
                        match e {
                            Some(err) => r matches Err(x) && x == err && final(self)@ == resolved_state(
                                s,
                                drop_of(t),
                                funder,
                                st,
                            ),
                            None => r matches Ok(b) && b == st.success && final(self)@ == cleanup_state(
                                resolved_state(s, drop_of(t), funder, st),
                                drop_of(t),
                                t,
                                st.empty,
                            ),
                        }
                    }
                },
            },
    {
        if !has_colon(token_id) {
            return Err(KeypomError::InvalidTokenId);
        }
        let (drop_id, _key_id) = match parse_token_id(token_id) {
            Ok(p) => p,
            Err(_) => {
                return Err(KeypomError::InvalidTokenId);
            },
        };
        let drop_ref = match self.drop_by_id.get(&drop_id) {
            Some(d) => d,
            None => {
                return Err(KeypomError::DropNotFound);
            },
        };
        let key_ref = match drop_ref.key_info_by_token_id.get(token_id) {
            Some(k) => k,
            None => {
                return Err(KeypomError::KeyNotFound);
            },
        };
        if key_ref.remaining_uses > drop_ref.max_key_uses {
            return Err(KeypomError::KeyNotFound);
        }
        let cur = drop_ref.max_key_uses - key_ref.remaining_uses;
        let data = get_asset_data_for_specific_use(&drop_ref.asset_data_for_uses, &cur);
        let n = data.assets_metadata.len();
        if results.len() != n || token_ids_transferred.len() != n {
            return Err(KeypomError::PromiseResultsMismatch);
        }
        let funder = drop_ref.funder_id.clone();
        let ghost s0 = self@;
        let ghost t = token_id@;
        let ghost d0 = s0.drop_by_id[drop_id@];
        let ghost ms = data@.assets_metadata;
        let ghost oks = results@;
        let ghost tv = opt_views(token_ids_transferred@);
        let ghost st0 = resolve_start(s0, t);
        proof {
            assert(drop_of(t) == drop_id@);
            assert(ms == claimed_metadata(s0, t));
        }
        let mut drop = match self.drop_by_id.remove(&drop_id) {
            Some(d) => d,
            None => {
                return Err(KeypomError::DropNotFound);
            },
        };
        let mut success = true;
        let mut empty = true;
        let mut i: usize = 0;
        while i < n
            invariant
                n == ms.len(),
                ms == data@.assets_metadata,
                ms.len() == data.assets_metadata@.len(),
                oks == results@,
                tv == opt_views(token_ids_transferred@),
                oks.len() == n,
                tv.len() == n,
                token_ids_transferred@.len() == n,
                i <= n,
                funder@ == d0.funder_id,
                d0 == s0.drop_by_id[drop_id@],
                s0.drop_by_id.contains_key(drop_id@),
                st0 == resolve_start(s0, t),
                t == token_id@,
                drop_of(t) == drop_id@,
                ms == claimed_metadata(s0, t),
                d0.key_info_by_token_id.contains_key(t),
                claimed_key_error(s0, t) is None,
                old(self)@ == s0,
                resolve_upto(st0, ms, oks, tv, i as int).1 is None,
                ({
                    let st = resolve_upto(st0, ms, oks, tv, i as int).0;
                    &&& drop@ == (DropView { asset_by_id: st.assets, ..d0 })
                    &&& success == st.success
                    &&& empty == st.empty
                    &&& st.balance == balance_in(self@.funder_info_by_id, d0.funder_id)
                    &&& self@ == (KeypomView {
                        drop_by_id: s0.drop_by_id.remove(drop_id@),
                        funder_info_by_id: if st.touched {
                            with_balance(s0.funder_info_by_id, d0.funder_id, st.balance as u128)
                        } else {
                            s0.funder_info_by_id
                        },
                        ..s0
                    })
                }),
            decreases n - i,
        {
            let ghost st = resolve_upto(st0, ms, oks, tv, i as int).0;
            let m = &data.assets_metadata[i];
            proof {
                assert(ms[i as int] == data.assets_metadata@[i as int]@);
                assert(tv[i as int] == opt_view(token_ids_transferred@[i as int]));
                assert(resolve_upto(st0, ms, oks, tv, i + 1) == (match resolve_one(st, ms[i as int], oks[i as int], tv[i as int]) {
                    Ok(st2) => (st2, None),
                    Err(err) => (st, Some(err)),
                }));
            }
            let ghost st2 = resolve_upto(st0, ms, oks, tv, i + 1).0;
            if is_fc_asset_id(&m.asset_id) {
                if !results[i] {
                    success = false;
                }
                proof {
                    assert(contains_text(ms[i as int].asset_id, fc_asset_prefix()));
                    assert(st2 == ResolveState { success: st.success && oks[i as int], ..st });
                }
            } else {
                let mut asset = match drop.asset_by_id.remove(&m.asset_id) {
                    Some(a) => a,
                    None => {
                        proof {
                            assert(drop.asset_by_id@ =~= st.assets);
                            assert(drop@ == (DropView { asset_by_id: st.assets, ..d0 }));
                        }
                        let ghost pre = self.drop_by_id@;
                        let ghost dv = drop@;
                        self.drop_by_id.insert(drop_id.clone(), drop);
                        proof {
                            lemma_upto_err_all(st0, ms, oks, tv, i + 1);
                            assert(pre == s0.drop_by_id.remove(drop_id@));
                            assert(self.drop_by_id@ == pre.insert(drop_id@, dv));
                            assert(dv == (DropView { asset_by_id: st.assets, ..d0 }));
                            assert(pre.insert(drop_id@, dv) =~= s0.drop_by_id.insert(drop_id@, dv));
                            assert(self@.drop_by_id =~= resolved_state(s0, drop_id@, d0.funder_id, st).drop_by_id);
                        }
                        return Err(KeypomError::AssetNotFound);
                    },
                };
                if results[i] {
                    if !asset.is_empty() {
                        empty = false;
                    }
                    drop.asset_by_id.insert(m.asset_id.clone(), asset);
                    proof {
                        assert(drop.asset_by_id@ =~= st.assets);
                        assert(st2.assets == st.assets);
                        assert(st2.success == st.success);
                        assert(st2.balance == st.balance);
                        assert(st2.touched == st.touched);
                    }
                } else {
                    let check = failed_claim_check(&asset, &m.tokens_per_use, &token_ids_transferred[i]);
                    if let Some(e) = check {
                        drop.asset_by_id.insert(m.asset_id.clone(), asset);
                        self.drop_by_id.insert(drop_id.clone(), drop);
                        proof {
                            assert(drop@.asset_by_id =~= st.assets);
                            lemma_upto_err_all(st0, ms, oks, tv, i + 1);
                            assert(self@.drop_by_id =~= resolved_state(s0, drop_id@, d0.funder_id, st).drop_by_id);
                        }
                        return Err(e);
                    }
                    let refund = failure_refund_amount(&asset, &m.tokens_per_use);
                    if refund > 0 && self.get_user_balance(&funder) > u128::MAX - refund {
                        drop.asset_by_id.insert(m.asset_id.clone(), asset);
                        proof {
                            assert(drop.asset_by_id@ =~= st.assets);
                            assert(drop@ == (DropView { asset_by_id: st.assets, ..d0 }));
                        }
                        self.drop_by_id.insert(drop_id.clone(), drop);
                        proof {
                            lemma_upto_err_all(st0, ms, oks, tv, i + 1);
                            assert(self@.drop_by_id =~= resolved_state(s0, drop_id@, d0.funder_id, st).drop_by_id);
                        }
                        return Err(KeypomError::Overflow);
                    }
                    let _ = asset.on_failed_claim(&m.tokens_per_use, &token_ids_transferred[i]);
                    let res = self.internal_modify_user_balance(&funder, refund, false);
                    proof {
                        assert(res is Ok);
                        if refund > 0 {
                            lemma_with_balance_twice(s0.funder_info_by_id, d0.funder_id, st.balance as u128, (st.balance + refund) as u128);
                        }
                    }
                    success = false;
                    if !asset.is_empty() {
                        empty = false;
                    }
                    let ghost a2 = asset@;
                    drop.asset_by_id.insert(m.asset_id.clone(), asset);
                    proof {
                        assert(a2 == asset_after_failure(st.assets[ms[i as int].asset_id], ms[i as int].tokens_per_use, tv[i as int]));
                        assert(drop.asset_by_id@ =~= st.assets.insert(ms[i as int].asset_id, a2));
                        assert(st2.assets == st.assets.insert(ms[i as int].asset_id, a2));
                        assert(st2.balance == st.balance + refund);
                        assert(st2.touched == (st.touched || refund > 0));
                        assert(!st2.success);
                        assert(balance_in(self@.funder_info_by_id, d0.funder_id) == st2.balance);
                        assert(self@.funder_info_by_id == (if st2.touched {
                            with_balance(s0.funder_info_by_id, d0.funder_id, st2.balance as u128)
                        } else {
                            s0.funder_info_by_id
                        }));
                    }
                }
            }
            i = i + 1;
        }
        let ghost st = resolve_upto(st0, ms, oks, tv, n as int).0;
        self.drop_by_id.insert(drop_id.clone(), drop);
        proof {
            assert(self@.drop_by_id =~= resolved_state(s0, drop_id@, d0.funder_id, st).drop_by_id);
            assert(self@ == resolved_state(s0, drop_id@, d0.funder_id, st));
        }
        self.handle_key_cleanup(token_id, &drop_id, empty);
        Ok(success)
    }
}

/// A refusal met after `k` results stops the whole resolution there.
pub proof fn lemma_upto_err_all(
    st0: ResolveState,
    ms: Seq<MetadataView>,
    oks: Seq<bool>,
    tids: Seq<Option<Seq<char>>>,
    k: int,
)
    requires
        0 <= k <= ms.len(),
        resolve_upto(st0, ms, oks, tids, k).1 is Some,
    ensures
        resolve_upto(st0, ms, oks, tids, ms.len() as int) == resolve_upto(st0, ms, oks, tids, k),
    decreases ms.len() - k,
{
    if k < ms.len() {
        lemma_upto_err_all(st0, ms, oks, tids, k + 1);
    }
}

/// Whether every asset of a map is empty.
pub open spec fn all_assets_empty(m: Map<Seq<char>, AssetView>) -> bool {
    forall|k: Seq<char>| #[trigger] m.contains_key(k) ==> asset_is_empty(m[k])
}

/// Whether every stored asset is empty.
pub fn all_empty(m: &crate::strmap::StrMap<InternalAsset>) -> (b: bool)
    ensures
        b == all_assets_empty(m@),
{
    let _ks = m.keys();
    let n = m.len();
    let mut i: usize = 0;
    while i < n
        invariant
            n == m.key_seq().len(),
            i <= n,
            forall|k: Seq<char>| #[trigger] m@.contains_key(k) <==> m.key_seq().contains(k),
            forall|j: int| 0 <= j < i ==> asset_is_empty(m@[#[trigger] m.key_seq()[j]]),
        decreases n - i,
    {
        if !m.value_at(i).is_empty() {
            proof {
                assert(m@.contains_key(m.key_seq()[i as int])) by {
                    assert(m.key_seq().contains(m.key_seq()[i as int]));
                }
            }
            return false;
        }
        i = i + 1;
    }
    proof {
        assert forall|k: Seq<char>| #[trigger] m@.contains_key(k) implies asset_is_empty(m@[k]) by {
            let j = choose|j: int| 0 <= j < m.key_seq().len() && m.key_seq()[j] == k;
            assert(asset_is_empty(m@[m.key_seq()[j]]));
        }
    }
    true
}

/// Refunds of assets are never negative.
pub proof fn lemma_refund_nonneg(a: AssetView, t: Option<u128>)
    ensures
        asset_refund(a, t) >= 0,
{
    if a is fc {
        crate::assets::lemma_total_deposit_nonneg(a->fc_0);
    }
}

/// Running costs never go below where they start.
pub proof fn lemma_meta_result_ge(ms: Seq<MetadataView>, assets: Map<Seq<char>, AssetView>, uses: int, start: int)
    requires
        uses >= 0,
    ensures
        meta_result(ms, assets, uses, start) matches Ok(t) ==> t >= start,
    decreases ms.len(),
{
    if ms.len() > 0 {
        lemma_meta_result_ge(ms.drop_last(), assets, uses, start);
        let m = ms.last();
        if assets.contains_key(m.asset_id) {
            lemma_refund_nonneg(assets[m.asset_id], m.tokens_per_use);
            let c = asset_refund(assets[m.asset_id], m.tokens_per_use);
            assert(c * uses >= 0) by (nonlinear_arith)
                requires
                    c >= 0,
                    uses >= 0,
            ;
        }
    }
}

impl Keypom {
    /// After the account creation of `create_account_and_claim`: when the account was created the
    /// assets are claimed for it (as `internal_claim_assets`); otherwise the $NEAR cost of the use's
    /// assets goes back to the funder, the used-up key is cleaned up, and `None` is returned.
    pub fn on_new_account_created(&mut self, token_id: &TokenId, receiver_id: &AccountId, account_created: bool) -> (r:
        Result<Option<ClaimPlan>, KeypomError>)
        ensures
            account_created ==> (match claim_assets_error(old(self)@, token_id@) {
                Some(e) => r matches Err(x) && x == e && final(self)@ == old(self)@,
                None => r matches Ok(Some(plan)) && claim_plan_ok(old(self)@, token_id@, receiver_id@, plan)
                    && final(self)@ == claim_assets_state(old(self)@, token_id@),
            }),
            !account_created ==> (match claimed_key_error(old(self)@, token_id@) {
                Some(e) => r matches Err(x) && x == e && final(self)@ == old(self)@,
                None => {
                    let s = old(self)@;
                    let t = token_id@;
                    let d = s.drop_by_id[drop_of(t)];
                    let b0 = balance_in(s.funder_info_by_id, d.funder_id);
                    match meta_result(claimed_metadata(s, t), d.asset_by_id, 1, b0) {
                        Err(e) => r matches Err(x) && x == e && final(self)@ == s,
                        Ok(total) => r matches Ok(None) && final(self)@ == cleanup_state(
                            crate::state::modify_balance_spec(s, d.funder_id, (total - b0) as u128, false).unwrap(),
                            drop_of(t),
                            t,
                            all_assets_empty(d.asset_by_id),
                        ),
                    }
                },
            }),
    {
        if account_created {
            let plan = self.internal_claim_assets(token_id, receiver_id)?;
            return Ok(Some(plan));
        }
        if !has_colon(token_id) {
            return Err(KeypomError::InvalidTokenId);
        }
        let (drop_id, _key_id) = match parse_token_id(token_id) {
            Ok(p) => p,
            Err(_) => {
                return Err(KeypomError::InvalidTokenId);
            },
        };
        let drop_ref = match self.drop_by_id.get(&drop_id) {
            Some(d) => d,
            None => {
                return Err(KeypomError::DropNotFound);
            },
        };
        let key_ref = match drop_ref.key_info_by_token_id.get(token_id) {
            Some(k) => k,
            None => {
                return Err(KeypomError::KeyNotFound);
            },
        };
        if key_ref.remaining_uses > drop_ref.max_key_uses {
            return Err(KeypomError::KeyNotFound);
        }
        let cur = drop_ref.max_key_uses - key_ref.remaining_uses;
        let data = get_asset_data_for_specific_use(&drop_ref.asset_data_for_uses, &cur);
        let funder = drop_ref.funder_id.clone();
        let b0 = self.get_user_balance(&funder);
        proof {
            assert(drop_of(token_id@) == drop_id@);
        }
        let total = crate::uses::meta_cost(&data.assets_metadata, &drop_ref.asset_by_id, 1, b0)?;
        let is_drop_empty = all_empty(&drop_ref.asset_by_id);
        proof {
            lemma_meta_result_ge(data@.assets_metadata, drop_ref.asset_by_id@, 1, b0 as int);
        }
        let res = self.internal_modify_user_balance(&funder, total - b0, false);
        proof {
            assert(res is Ok);
        }
        self.handle_key_cleanup(token_id, &drop_id, is_drop_empty);
        Ok(None)
    }
}

} // verus!
