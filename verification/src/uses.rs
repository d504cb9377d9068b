//! Asset data per set of uses of a key: which assets a given use carries, what the remaining uses
//! of a key still hold, and what they cost the funder.

use vstd::prelude::*;
use crate::assets::{
    asset_gas, asset_gas_defined, asset_refund, asset_refund_defined, ext_asset_id,
    ext_asset_to_internal, ext_tokens_per_use, fc_asset_prefix, internal_of_ext, none_asset_id,
    none_asset_id_string, AssetView, ExtAsset, InternalAsset,
};
use crate::strmap::StrMap;
use crate::token_id::{decimal, u64_to_decimal};
use crate::types::{
    time_config_valid, assert_valid_time_config, clone_opt_use_config, AssetId, Balance,
    ClaimPermissions, Gas, KeypomError, UseConfig, UseNumber, BASE_GAS_FOR_CLAIM,
    BASE_GAS_FOR_CREATE_ACC_AND_CLAIM, MAX_GAS_ATTACHABLE,
};

verus! {

/// Which asset a use carries and how many tokens it transfers.
pub struct AssetMetadata {
    /// ID of the asset in the drop's asset map.
    pub asset_id: AssetId,
    /// Tokens transferred per use (fungible tokens and $NEAR only).
    pub tokens_per_use: Option<Balance>,
}

/// View of asset metadata.
pub struct MetadataView {
    pub asset_id: Seq<char>,
    pub tokens_per_use: Option<Balance>,
}

impl View for AssetMetadata {
    type V = MetadataView;

    open spec fn view(&self) -> MetadataView {
        MetadataView { asset_id: self.asset_id@, tokens_per_use: self.tokens_per_use }
    }
}

/// Views of a list of asset metadata.
pub open spec fn metadata_views(s: Seq<AssetMetadata>) -> Seq<MetadataView> {
    s.map_values(|m: AssetMetadata| m@)
}

impl AssetMetadata {
    /// A copy of the metadata.
    pub fn copy(&self) -> (r: Self)
        ensures
            r@ == self@,
    {
        AssetMetadata { asset_id: self.asset_id.clone(), tokens_per_use: self.tokens_per_use }
    }
}

/// The assets and configuration for a set of consecutive uses.
pub struct InternalAssetDataForUses {
    /// How many uses this data applies to.
    pub uses: UseNumber,
    /// Configuration of these uses.
    pub config: Option<UseConfig>,
    /// The assets of each of these uses, in order.
    pub assets_metadata: Vec<AssetMetadata>,
    /// Gas the assets of one use need.
    pub required_asset_gas: Gas,
}

/// View of the asset data for a set of uses.
pub struct AssetDataView {
    pub uses: UseNumber,
    pub config: Option<UseConfig>,
    pub assets_metadata: Seq<MetadataView>,
    pub required_asset_gas: Gas,
}

impl View for InternalAssetDataForUses {
    type V = AssetDataView;

    open spec fn view(&self) -> AssetDataView {
        AssetDataView {
            uses: self.uses,
            config: self.config,
            assets_metadata: metadata_views(self.assets_metadata@),
            required_asset_gas: self.required_asset_gas,
        }
    }
}

/// Views of a sequence of asset data.
pub open spec fn data_views(s: Seq<InternalAssetDataForUses>) -> Seq<AssetDataView> {
    s.map_values(|d: InternalAssetDataForUses| d@)
}

/// Asset data as it comes into the contract.
pub struct ExtAssetDataForUses {
    /// How many uses this data applies to.
    pub uses: UseNumber,
    /// The assets of each use (`None` for the null asset).
    pub assets: Vec<Option<ExtAsset>>,
    /// Configuration of these uses.
    pub config: Option<UseConfig>,
}

impl InternalAssetDataForUses {
    /// A copy of the data.
    pub fn copy(&self) -> (r: Self)
        ensures
            r@ == self@,
    {
        let mut m: Vec<AssetMetadata> = Vec::new();
        let mut i: usize = 0;
        while i < self.assets_metadata.len()
            invariant
                i <= self.assets_metadata@.len(),
                metadata_views(m@) == metadata_views(self.assets_metadata@).take(i as int),
            decreases self.assets_metadata@.len() - i,
        {
            let x = self.assets_metadata[i].copy();
            let ghost old_m = m@;
            m.push(x);
            proof {
                assert(m@ == old_m.push(x));
                assert(metadata_views(m@) =~= metadata_views(old_m).push(x@));
                assert(metadata_views(m@) =~= metadata_views(self.assets_metadata@).take(i + 1));
            }
            i = i + 1;
        }
        proof {
            assert(metadata_views(self.assets_metadata@).take(self.assets_metadata@.len() as int)
                =~= metadata_views(self.assets_metadata@));
        }
        InternalAssetDataForUses {
            uses: self.uses,
            config: clone_opt_use_config(&self.config),
            assets_metadata: m,
            required_asset_gas: self.required_asset_gas,
        }
    }
}

/// The asset data of the last `need` uses, taken from the end: whole entries while they fit,
/// then the part of one entry that is still needed.
pub open spec fn remaining_data_spec(s: Seq<AssetDataView>, need: int) -> Seq<AssetDataView>
    decreases s.len(),
{
    if s.len() == 0 {
        Seq::empty()
    } else {
        let a = s.last();
        if a.uses >= need {
            seq![AssetDataView { uses: need as u32, ..a }]
        } else {
            seq![a] + remaining_data_spec(s.drop_last(), need - a.uses)
        }
    }
}

/// The asset data for a given use: the entry whose range of uses holds it, or empty data past the
/// end.
pub open spec fn data_for_use_spec(s: Seq<AssetDataView>, use_number: int) -> AssetDataView
    decreases s.len(),
{
    if s.len() == 0 {
        AssetDataView {
            uses: 0,
            config: None,
            assets_metadata: Seq::empty(),
            required_asset_gas: 0,
        }
    } else if s[0].uses >= use_number {
        s[0]
    } else {
        data_for_use_spec(s.drop_first(), use_number - s[0].uses)
    }
}

/// The asset data of the remaining uses of a key, latest uses first.
pub fn get_remaining_asset_data(asset_data: &Vec<InternalAssetDataForUses>, remaining_uses: UseNumber) -> (r:
    Vec<InternalAssetDataForUses>)
    ensures
        data_views(r@) == remaining_data_spec(data_views(asset_data@), remaining_uses as int),
{
    let mut remaining: Vec<InternalAssetDataForUses> = Vec::new();
    let mut need: u32 = remaining_uses;
    let mut k: usize = asset_data.len();
    let ghost all = data_views(asset_data@);
    proof {
        assert(all.take(k as int) =~= all);
        assert(data_views(remaining@) + remaining_data_spec(all, need as int)
            =~= remaining_data_spec(all, need as int));
    }
    while k > 0
        invariant
            k <= asset_data@.len(),
            all == data_views(asset_data@),
            data_views(remaining@) + remaining_data_spec(all.take(k as int), need as int)
                == remaining_data_spec(all, remaining_uses as int),
        decreases k,
    {
        let a = &asset_data[k - 1];
        proof {
            assert(all.take(k as int).last() == a@);
            assert(all.take(k as int).drop_last() =~= all.take(k - 1));
        }
        if a.uses >= need {
            let mut piece = a.copy();
            piece.uses = need;
            let ghost before = data_views(remaining@);
            remaining.push(piece);
            proof {
                assert(data_views(remaining@) =~= before.push(piece@));
                assert(piece@ == AssetDataView { uses: need, ..a@ });
                assert(remaining_data_spec(all.take(0), need as int) =~= Seq::<AssetDataView>::empty());
                assert(data_views(remaining@) + remaining_data_spec(all.take(0), need as int)
                    =~= before + remaining_data_spec(all.take(k as int), need as int));
                assert(all.take(0) =~= Seq::<AssetDataView>::empty());
            }
            k = 0;
        } else {
            let ghost before = data_views(remaining@);
            remaining.push(a.copy());
            proof {
                assert(data_views(remaining@) =~= before.push(a@));
                assert(data_views(remaining@) + remaining_data_spec(all.take(k - 1), (need - a.uses) as int)
                    =~= before + remaining_data_spec(all.take(k as int), need as int));
            }
            need = need - a.uses;
            k = k - 1;
        }
    }
    proof {
        assert(all.take(0) =~= Seq::<AssetDataView>::empty());
        assert(data_views(remaining@) + Seq::<AssetDataView>::empty() =~= data_views(remaining@));
    }
    remaining
}

/// The asset data for a specific use of a key (empty data past the last use).
pub fn get_asset_data_for_specific_use(asset_data_for_uses: &Vec<InternalAssetDataForUses>, use_number: &UseNumber) -> (r:
    InternalAssetDataForUses)
    ensures
        r@ == data_for_use_spec(data_views(asset_data_for_uses@), *use_number as int),
{
    let ghost all = data_views(asset_data_for_uses@);
    let mut need: u32 = *use_number;
    let mut i: usize = 0;
    proof {
        assert(all.skip(0) =~= all);
    }
    while i < asset_data_for_uses.len()
        invariant
            i <= asset_data_for_uses@.len(),
            all == data_views(asset_data_for_uses@),
            data_for_use_spec(all.skip(i as int), need as int) == data_for_use_spec(all, *use_number as int),
        decreases asset_data_for_uses@.len() - i,
    {
        let a = &asset_data_for_uses[i];
        proof {
            assert(all.skip(i as int)[0] == a@);
            assert(all.skip(i as int).drop_first() =~= all.skip(i + 1));
        }
        if a.uses >= need {
            return a.copy();
        }
        need = need - a.uses;
        i = i + 1;
    }
    proof {
        assert(all.skip(i as int) =~= Seq::<AssetDataView>::empty());
    }
    let r = InternalAssetDataForUses {
        uses: 0,
        config: None,
        assets_metadata: Vec::new(),
        required_asset_gas: 0,
    };
    proof {
        assert(r@.assets_metadata =~= Seq::<MetadataView>::empty());
    }
    r
}

/// Base gas of a use: plain `claim` when the use only allows it, else account creation too.
pub open spec fn base_gas_for_use(config: Option<UseConfig>) -> int {
    match config {
        Some(c) => match c.permissions {
            Some(ClaimPermissions::claim) => BASE_GAS_FOR_CLAIM as int,
            _ => BASE_GAS_FOR_CREATE_ACC_AND_CLAIM as int,
        },
        None => BASE_GAS_FOR_CREATE_ACC_AND_CLAIM as int,
    }
}

/// Whether a use's time configuration is acceptable at time `now`.
pub open spec fn use_time_ok(d: AssetDataView, now: u64) -> bool {
    d.config matches Some(c) ==> (c.time matches Some(t) ==> time_config_valid(t, now))
}

/// The running cost after the assets of a list of metadata, each counted for `uses` uses,
/// starting from `start`; refused when an asset is missing or its refund undefined
/// (`AssetNotFound`) or an amount passes `u128::MAX` (`Overflow`).
pub open spec fn meta_result(ms: Seq<MetadataView>, assets: Map<Seq<char>, AssetView>, uses: int, start: int) -> Result<
    int,
    KeypomError,
>
    decreases ms.len(),
{
    if ms.len() == 0 {
        Ok(start)
    } else {
        match meta_result(ms.drop_last(), assets, uses, start) {
            Err(e) => Err(e),
            Ok(t) => {
                let m = ms.last();
                if !assets.contains_key(m.asset_id) || !asset_refund_defined(
                    assets[m.asset_id],
                    m.tokens_per_use,
                ) {
                    Err(KeypomError::AssetNotFound)
                } else {
                    let c = asset_refund(assets[m.asset_id], m.tokens_per_use);
                    if c * uses > u128::MAX || t + c * uses > u128::MAX {
                        Err(KeypomError::Overflow)
                    } else {
                        Ok(t + c * uses)
                    }
                }
            },
        }
    }
}

/// The running cost after one entry of asset data: its time configuration is checked first, then
/// its assets, then that its gas stays within what a transaction can carry.
pub open spec fn entry_result(d: AssetDataView, assets: Map<Seq<char>, AssetView>, now: u64, start: int) -> Result<
    int,
    KeypomError,
> {
    if !use_time_ok(d, now) {
        Err(KeypomError::InvalidTimeConfig)
    } else {
        match meta_result(d.assets_metadata, assets, d.uses as int, start) {
            Err(e) => Err(e),
            Ok(t) => if d.required_asset_gas + base_gas_for_use(d.config) > MAX_GAS_ATTACHABLE {
                Err(KeypomError::GasExceedsLimit)
            } else {
                Ok(t)
            },
        }
    }
}

/// The cost of a list of asset data taken in order: the refund of every asset of every entry
/// times the entry's uses, or the first refusal met.
pub open spec fn costs_result(s: Seq<AssetDataView>, assets: Map<Seq<char>, AssetView>, now: u64) -> Result<
    int,
    KeypomError,
>
    decreases s.len(),
{
    if s.len() == 0 {
        Ok(0)
    } else {
        match costs_result(s.drop_last(), assets, now) {
            Err(e) => Err(e),
            Ok(t) => entry_result(s.last(), assets, now, t),
        }
    }
}

/// The refunds of a list of asset metadata, one use each.
pub open spec fn meta_sum(ms: Seq<MetadataView>, assets: Map<Seq<char>, AssetView>) -> int
    decreases ms.len(),
{
    if ms.len() == 0 {
        0
    } else {
        meta_sum(ms.drop_last(), assets) + asset_refund(assets[ms.last().asset_id], ms.last().tokens_per_use)
    }
}

/// The cost of a list of asset data: the sum over its entries of the entry's uses times the
/// refunds of its assets.
pub open spec fn costs_sum(s: Seq<AssetDataView>, assets: Map<Seq<char>, AssetView>) -> int
    decreases s.len(),
{
    if s.len() == 0 {
        0
    } else {
        costs_sum(s.drop_last(), assets) + s.last().uses * meta_sum(s.last().assets_metadata, assets)
    }
}

/// A running cost that is not refused adds the uses times the refunds of the assets.
proof fn lemma_meta_result_sum(ms: Seq<MetadataView>, assets: Map<Seq<char>, AssetView>, uses: int, start: int)
    ensures
        meta_result(ms, assets, uses, start) matches Ok(t) ==> t == start + uses * meta_sum(ms, assets),
    decreases ms.len(),
{
    if ms.len() > 0 {
        lemma_meta_result_sum(ms.drop_last(), assets, uses, start);
        let p = meta_sum(ms.drop_last(), assets);
        let c = asset_refund(assets[ms.last().asset_id], ms.last().tokens_per_use);
        assert(uses * (p + c) == uses * p + c * uses) by (nonlinear_arith);
    }
}

/// What the cost of keys is: where `costs_result` (the cost `get_total_costs_for_key` returns
/// for the remaining entries) is not refused, it is the sum over the entries of each entry's
/// uses times the refunds of its assets.
pub proof fn lemma_costs_closed_form(s: Seq<AssetDataView>, assets: Map<Seq<char>, AssetView>, now: u64)
    ensures
        costs_result(s, assets, now) matches Ok(c) ==> c == costs_sum(s, assets),
    decreases s.len(),
{
    if s.len() > 0 {
        lemma_costs_closed_form(s.drop_last(), assets, now);
        if let Ok(t) = costs_result(s.drop_last(), assets, now) {
            lemma_meta_result_sum(s.last().assets_metadata, assets, s.last().uses as int, t);
        }
    }
}

/// The running cost after the assets of a list of metadata: `meta_result`.
pub fn meta_cost(
    metadata: &Vec<AssetMetadata>,
    asset_by_id: &StrMap<InternalAsset>,
    uses: UseNumber,
    start: u128,
) -> (r: Result<u128, KeypomError>)
    ensures
        match meta_result(metadata_views(metadata@), asset_by_id@, uses as int, start as int) {
            Ok(t) => r == Ok::<u128, KeypomError>(t as u128) && 0 <= t <= u128::MAX,
            Err(e) => r == Err::<u128, KeypomError>(e),
        },
{
    let ghost ms = metadata_views(metadata@);
    let mut total: u128 = start;
    let mut j: usize = 0;
    proof {
        assert(ms.take(0) =~= Seq::<MetadataView>::empty());
    }
    while j < metadata.len()
        invariant
            ms == metadata_views(metadata@),
            j <= ms.len(),
            ms.len() == metadata@.len(),
            meta_result(ms.take(j as int), asset_by_id@, uses as int, start as int) == Ok::<int, KeypomError>(
                total as int,
            ),
        decreases ms.len() - j,
    {
        let m = &metadata[j];
        proof {
            assert(ms[j as int] == metadata@[j as int]@);
            assert(ms.take(j + 1).drop_last() =~= ms.take(j as int));
            assert(ms.take(j + 1).last() == ms[j as int]);
        }
        let found = match asset_by_id.get(&m.asset_id) {
            None => None,
            Some(asset) => {
                let defined = match asset {
                    InternalAsset::near => m.tokens_per_use.is_some(),
                    InternalAsset::fc(f) => fc_deposit_fits(f),
                    _ => true,
                };
                if defined {
                    Some(asset)
                } else {
                    None
                }
            },
        };
        match found {
            None => {
                proof {
                    lemma_meta_err_prefix(ms, asset_by_id@, uses as int, start as int, j + 1);
                }
                return Err(KeypomError::AssetNotFound);
            },
            Some(asset) => {
                let c = asset.get_yocto_refund_amount(&m.tokens_per_use);
                let step = c.checked_mul(uses as u128);
                let next = match step {
                    Some(p) => total.checked_add(p),
                    None => None,
                };
                match next {
                    Some(v) => {
                        total = v;
                    },
                    None => {
                        proof {
                            lemma_meta_err_prefix(ms, asset_by_id@, uses as int, start as int, j + 1);
                        }
                        return Err(KeypomError::Overflow);
                    },
                }
            },
        }
        j = j + 1;
    }
    proof {
        assert(ms.take(ms.len() as int) =~= ms);
    }
    Ok(total)
}

/// The $NEAR a key with the given remaining uses costs its funder (refunded when it is deleted):
/// `costs_result` of the data of its remaining uses, which where it is not refused is `costs_sum`:
/// the sum over those entries of the entry's uses times the refunds of its assets.
pub fn get_total_costs_for_key(
    remaining_uses: UseNumber,
    asset_by_id: &StrMap<InternalAsset>,
    asset_data_for_uses: &Vec<InternalAssetDataForUses>,
    block_timestamp: u64,
) -> (r: Result<Balance, KeypomError>)
    ensures
        ({
            let rem = remaining_data_spec(data_views(asset_data_for_uses@), remaining_uses as int);
            match costs_result(rem, asset_by_id@, block_timestamp) {
                Ok(c) => r == Ok::<Balance, KeypomError>(c as u128) && 0 <= c <= u128::MAX && c == costs_sum(
                    rem,
                    asset_by_id@,
                ),
                Err(e) => r == Err::<Balance, KeypomError>(e),
            }
        }),
{
    proof {
        lemma_costs_closed_form(
            remaining_data_spec(data_views(asset_data_for_uses@), remaining_uses as int),
            asset_by_id@,
            block_timestamp,
        );
    }
    let remaining = get_remaining_asset_data(asset_data_for_uses, remaining_uses);
    let ghost rem = data_views(remaining@);
    let mut total: u128 = 0;
    let mut i: usize = 0;
    while i < remaining.len()
        invariant
            i <= remaining@.len(),
            rem == data_views(remaining@),
            rem == remaining_data_spec(data_views(asset_data_for_uses@), remaining_uses as int),
            costs_result(rem.take(i as int), asset_by_id@, block_timestamp) == Ok::<int, KeypomError>(
                total as int,
            ),
        decreases remaining@.len() - i,
    {
        let d = &remaining[i];
        let ghost ms = d@.assets_metadata;
        let ghost uses = d.uses as int;
        let ghost start = total as int;
        proof {
            assert(rem[i as int] == d@);
            assert(rem.take(i + 1).drop_last() =~= rem.take(i as int));
            assert(rem.take(i + 1).last() == d@);
        }
        let base: u64 = match &d.config {
            Some(c) => match c.permissions {
                Some(ClaimPermissions::claim) => BASE_GAS_FOR_CLAIM,
                _ => BASE_GAS_FOR_CREATE_ACC_AND_CLAIM,
            },
            None => BASE_GAS_FOR_CREATE_ACC_AND_CLAIM,
        };
        let mut time_ok = true;
        if let Some(c) = &d.config {
            if let Some(t) = &c.time {
                time_ok = assert_valid_time_config(t, block_timestamp);
            }
        }
        if !time_ok {
            proof {
                lemma_costs_err_prefix(rem, asset_by_id@, block_timestamp, i + 1);
            }
            return Err(KeypomError::InvalidTimeConfig);
        }
        match meta_cost(&d.assets_metadata, asset_by_id, d.uses, total) {
            Ok(v) => {
                total = v;
            },
            Err(e) => {
                proof {
                    lemma_costs_err_prefix(rem, asset_by_id@, block_timestamp, i + 1);
                }
                return Err(e);
            },
        }
        if d.required_asset_gas as u128 + base as u128 > MAX_GAS_ATTACHABLE as u128 {
            proof {
                assert(base == base_gas_for_use(d.config));
                lemma_costs_err_prefix(rem, asset_by_id@, block_timestamp, i + 1);
            }
            return Err(KeypomError::GasExceedsLimit);
        }
        proof {
            assert(base == base_gas_for_use(d.config));
            assert(use_time_ok(d@, block_timestamp));
            assert(meta_result(ms, asset_by_id@, uses, start) == Ok::<int, KeypomError>(total as int));
            assert(entry_result(d@, asset_by_id@, block_timestamp, start) == Ok::<int, KeypomError>(
                total as int,
            ));
        }
        i = i + 1;
    }
    proof {
        assert(rem.take(rem.len() as int) =~= rem);
    }
    Ok(total)
}

/// A refusal met on a prefix of the metadata is the refusal of the whole list.
pub proof fn lemma_meta_err_prefix(ms: Seq<MetadataView>, assets: Map<Seq<char>, AssetView>, uses: int, start: int, k: int)
    requires
        0 <= k <= ms.len(),
        meta_result(ms.take(k), assets, uses, start) is Err,
    ensures
        meta_result(ms, assets, uses, start) == meta_result(ms.take(k), assets, uses, start),
    decreases ms.len() - k,
{
    if k < ms.len() {
        let t = ms.take(k + 1);
        assert(t.drop_last() =~= ms.take(k));
        lemma_meta_err_prefix(ms, assets, uses, start, k + 1);
    } else {
        assert(ms.take(k) =~= ms);
    }
}

/// A refusal met on a prefix of the data is the refusal of the whole list.
pub proof fn lemma_costs_err_prefix(s: Seq<AssetDataView>, assets: Map<Seq<char>, AssetView>, now: u64, k: int)
    requires
        0 <= k <= s.len(),
        costs_result(s.take(k), assets, now) is Err,
    ensures
        costs_result(s, assets, now) == costs_result(s.take(k), assets, now),
    decreases s.len() - k,
{
    if k < s.len() {
        let t = s.take(k + 1);
        assert(t.drop_last() =~= s.take(k));
        lemma_costs_err_prefix(s, assets, now, k + 1);
    } else {
        assert(s.take(k) =~= s);
    }
}

/// Whether the deposits of a function call asset fit a `u128`.
fn fc_deposit_fits(f: &crate::assets::FCData) -> (b: bool)
    ensures
        b == (crate::assets::total_deposit(f@) <= u128::MAX),
{
    let n = f.methods.len();
    let mut total: u128 = 0;
    let mut i: usize = 0;
    while i < n
        invariant
            n == f@.len(),
            i <= n,
            total == crate::assets::total_deposit(f@.take(i as int)),
        decreases n - i,
    {
        proof {
            assert(f@.take(i + 1).drop_last() =~= f@.take(i as int));
        }
        match total.checked_add(f.methods[i].attached_deposit) {
            Some(t) => {
                total = t;
            },
            None => {
                proof {
                    crate::assets::lemma_total_deposit_prefix(f@, i + 1);
                }
                return false;
            },
        }
        i = i + 1;
    }
    proof {
        assert(f@.take(n as int) =~= f@);
    }
    true
}


/// The uses of a list of asset data entries, added up.
pub open spec fn uses_in(s: Seq<AssetDataView>) -> int
    decreases s.len(),
{
    if s.len() == 0 {
        0
    } else {
        s[0].uses + uses_in(s.drop_first())
    }
}

/// Which entry a use takes: the entries cover consecutive ranges of uses, each as many as its
/// `uses`, so use `u` with `u1 + .. + u(j-1) < u <= u1 + .. + uj` takes entry `j`; a use past
/// them all takes empty data (no assets, no uses).
pub proof fn lemma_use_selects_entry(s: Seq<AssetDataView>, u: int, j: int)
    ensures
        0 <= j < s.len() && uses_in(s.take(j)) < u <= uses_in(s.take(j + 1)) ==> data_for_use_spec(s, u) == s[j],
        u > uses_in(s) ==> data_for_use_spec(s, u).uses == 0 && data_for_use_spec(s, u).assets_metadata.len() == 0,
    decreases s.len(),
{
    if s.len() > 0 {
        let t = s.drop_first();
        lemma_use_selects_entry(t, u - s[0].uses, j - 1);
        lemma_uses_in_nonneg(t);
        if 0 < j < s.len() {
            assert(s.take(j).drop_first() =~= t.take(j - 1));
            assert(s.take(j + 1).drop_first() =~= t.take(j));
            assert(s.take(j)[0] == s[0]);
            assert(s.take(j + 1)[0] == s[0]);
            lemma_uses_in_nonneg(t.take(j - 1));
            assert(t[j - 1] == s[j]);
        }
        if j == 0 {
            assert(s.take(0) =~= Seq::<AssetDataView>::empty());
            assert(s.take(1).drop_first() =~= Seq::<AssetDataView>::empty());
        }
    }
}

/// Added-up uses are never negative.
pub proof fn lemma_uses_in_nonneg(s: Seq<AssetDataView>)
    ensures
        uses_in(s) >= 0,
    decreases s.len(),
{
    if s.len() > 0 {
        lemma_uses_in_nonneg(s.drop_first());
    }
}

} // verus!
