//! The external form of a drop, as view methods return it.

use vstd::prelude::*;
use crate::assets::{
    internal_of_ext, ext_tokens_per_use, AssetView, ExtAsset, InternalAsset, InternalFTData,
    InternalNFTData, NFTDataView,
};
use crate::state::InternalDrop;
use crate::strmap::StrMap;
use crate::types::{AccountId, DropConfig, DropId, UseNumber};
use crate::uses::{AssetDataView, ExtAssetDataForUses};

verus! {

/// A drop as view methods return it.
pub struct ExtDrop {
    /// ID of the drop.
    pub drop_id: DropId,
    /// The account that funded the drop.
    pub funder_id: AccountId,
    /// Uses every key of the drop starts with.
    pub max_key_uses: UseNumber,
    /// The assets of each set of uses.
    pub asset_data: Vec<ExtAssetDataForUses>,
    /// The drop's non-fungible token assets.
    pub nft_asset_data: Vec<InternalNFTData>,
    /// The drop's fungible token assets.
    pub ft_asset_data: Vec<InternalFTData>,
    /// Configuration of the drop.
    pub drop_config: Option<DropConfig>,
    /// The nonce the next key gets.
    pub next_key_id: u64,
}

/// Whether `r` is the external form of the asset `a` with `tokens_per_use` per use: nothing
/// for the null asset, else the asset without its holdings and with the amount per use.
pub open spec fn external_asset(a: AssetView, tokens_per_use: Option<u128>, r: Option<ExtAsset>) -> bool {
    &&& (a is none <==> r is None)
    &&& r matches Some(e) ==> internal_of_ext(e) == (match a {
        AssetView::ft(d) => AssetView::ft(InternalFTData { balance_avail: 0, ..d }),
        AssetView::nft(d) => AssetView::nft(NFTDataView { token_ids: Seq::empty(), ..d }),
        other => other,
    })
    &&& r matches Some(e) ==> ((a is ft || a is near) ==> ext_tokens_per_use(e) == tokens_per_use.unwrap())
}

/// Whether every asset a drop's uses name is in the drop, with an amount per use where it
/// transfers tokens or $NEAR.
pub open spec fn uses_resolvable(data: Seq<AssetDataView>, assets: Map<Seq<char>, AssetView>) -> bool {
    forall|i: int, j: int|
        0 <= i < data.len() && 0 <= j < data[i].assets_metadata.len() ==> {
            let m = #[trigger] data[i].assets_metadata[j];
            &&& assets.contains_key(m.asset_id)
            &&& (assets[m.asset_id] is ft || assets[m.asset_id] is near) ==> m.tokens_per_use is Some
        }
}

/// Whether `r` is the external form of one set of uses.
pub open spec fn external_use_data(d: AssetDataView, assets: Map<Seq<char>, AssetView>, r: ExtAssetDataForUses) -> bool {
    &&& r.uses == d.uses
    &&& r.config == d.config
    &&& r.assets@.len() == d.assets_metadata.len()
    &&& forall|j: int|
        0 <= j < d.assets_metadata.len() ==> external_asset(
            assets[d.assets_metadata[j].asset_id],
            d.assets_metadata[j].tokens_per_use,
            #[trigger] r.assets@[j],
        )
}

/// The non-fungible token assets among the keys `ks` of a map, in that order.
pub open spec fn nft_assets(ks: Seq<Seq<char>>, assets: Map<Seq<char>, AssetView>) -> Seq<NFTDataView>
    decreases ks.len(),
{
    if ks.len() == 0 {
        Seq::empty()
    } else {
        let rest = nft_assets(ks.drop_last(), assets);
        match assets[ks.last()] {
            AssetView::nft(d) => rest.push(d),
            _ => rest,
        }
    }
}

/// The fungible token assets among the keys `ks` of a map, in that order.
pub open spec fn ft_assets(ks: Seq<Seq<char>>, assets: Map<Seq<char>, AssetView>) -> Seq<InternalFTData>
    decreases ks.len(),
{
    if ks.len() == 0 {
        Seq::empty()
    } else {
        let rest = ft_assets(ks.drop_last(), assets);
        match assets[ks.last()] {
            AssetView::ft(d) => rest.push(d),
            _ => rest,
        }
    }
}

/// The views of a list of non-fungible token data.
pub open spec fn nft_views(s: Seq<InternalNFTData>) -> Seq<NFTDataView> {
    s.map_values(|d: InternalNFTData| d@)
}

/// The views of a list of fungible token data.
pub open spec fn ft_views(s: Seq<InternalFTData>) -> Seq<InternalFTData> {
    s.map_values(|d: InternalFTData| d@)
}

/// A copy of a list of strings.
pub fn copy_strings(v: &Vec<String>) -> (r: Vec<String>)
    ensures
        r@ == v@,
{
    let mut out: Vec<String> = Vec::new();
    let mut i: usize = 0;
    while i < v.len()
        invariant
            i <= v@.len(),
            out@ == v@.take(i as int),
        decreases v@.len() - i,
    {
        out.push(v[i].clone());
        proof {
            assert(out@ =~= v@.take(i + 1));
        }
        i = i + 1;
    }
    proof {
        assert(v@.take(v@.len() as int) =~= v@);
    }
    out
}

/// Whether two drop configurations hold the same settings (allowlists compared by text).
pub open spec fn same_config(a: Option<DropConfig>, b: Option<DropConfig>) -> bool {
    match (a, b) {
        (Some(x), Some(y)) => {
            &&& x.metadata == y.metadata
            &&& x.delete_empty_drop == y.delete_empty_drop
            &&& x.extra_allowance_per_key == y.extra_allowance_per_key
            &&& match (x.add_key_allowlist, y.add_key_allowlist) {
                (Some(l), Some(m)) => l@ == m@,
                (None, None) => true,
                _ => false,
            }
        },
        (None, None) => true,
        _ => false,
    }
}

/// A copy of a drop configuration.
pub fn copy_drop_config(c: &Option<DropConfig>) -> (r: Option<DropConfig>)
    ensures
        same_config(r, *c),
{
    match c {
        Some(cfg) => Some(
            DropConfig {
                metadata: crate::types::clone_opt_str(&cfg.metadata),
                add_key_allowlist: match &cfg.add_key_allowlist {
                    Some(l) => Some(copy_strings(l)),
                    None => None,
                },
                delete_empty_drop: cfg.delete_empty_drop,
                extra_allowance_per_key: cfg.extra_allowance_per_key,
            },
        ),
        None => None,
    }
}

/// The drop's assets of each kind, in the map's order.
fn token_assets(assets: &StrMap<InternalAsset>) -> (r: (Vec<InternalNFTData>, Vec<InternalFTData>))
    ensures
        nft_views(r.0@) == nft_assets(assets.key_seq(), assets@),
        ft_views(r.1@) == ft_assets(assets.key_seq(), assets@),
{
    let mut nfts: Vec<InternalNFTData> = Vec::new();
    let mut fts: Vec<InternalFTData> = Vec::new();
    let n = assets.len();
    let mut i: usize = 0;
    while i < n
        invariant
            n == assets.key_seq().len(),
            i <= n,
            nft_views(nfts@) == nft_assets(assets.key_seq().take(i as int), assets@),
            ft_views(fts@) == ft_assets(assets.key_seq().take(i as int), assets@),
        decreases n - i,
    {
        let ghost ks = assets.key_seq().take(i + 1);
        proof {
            assert(ks.drop_last() =~= assets.key_seq().take(i as int));
            assert(ks.last() == assets.key_seq()[i as int]);
        }
        let ghost old_n = nfts@;
        let ghost old_f = fts@;
        match assets.value_at(i) {
            InternalAsset::nft(d) => {
                let c = InternalNFTData { contract_id: d.contract_id.clone(), token_ids: copy_strings(&d.token_ids) };
                nfts.push(c);
                proof {
                    assert(nft_views(nfts@) =~= nft_views(old_n).push(c@));
                }
            },
            InternalAsset::ft(d) => {
                let c = InternalFTData {
                    contract_id: d.contract_id.clone(),
                    balance_avail: d.balance_avail,
                    registration_cost: d.registration_cost,
                };
                fts.push(c);
                proof {
                    assert(ft_views(fts@) =~= ft_views(old_f).push(c@));
                }
            },
            _ => {},
        }
        i = i + 1;
    }
    proof {
        assert(assets.key_seq().take(n as int) =~= assets.key_seq());
    }
    (nfts, fts)
}

impl InternalDrop {
    /// The drop as view methods return it: its assets by use in external form, its token
    /// assets of each kind and its settings.
    pub fn to_external_drop(&self, drop_id: DropId) -> (r: ExtDrop)
        requires
            uses_resolvable(self@.asset_data_for_uses, self@.asset_by_id),
        ensures
            r.drop_id == drop_id,
            r.funder_id@ == self.funder_id@,
            r.max_key_uses == self.max_key_uses,
            r.next_key_id == self.next_key_id,
            same_config(r.drop_config, self.config),
            nft_views(r.nft_asset_data@) == nft_assets(self.asset_by_id.key_seq(), self@.asset_by_id),
            ft_views(r.ft_asset_data@) == ft_assets(self.asset_by_id.key_seq(), self@.asset_by_id),
            r.asset_data@.len() == self@.asset_data_for_uses.len(),
            forall|i: int|
                0 <= i < r.asset_data@.len() ==> external_use_data(
                    self@.asset_data_for_uses[i],
                    self@.asset_by_id,
                    #[trigger] r.asset_data@[i],
                ),
    {
        let (nft_list, ft_list) = token_assets(&self.asset_by_id);
        let ghost data = self@.asset_data_for_uses;
        let ghost assets = self@.asset_by_id;
        let mut asset_data: Vec<ExtAssetDataForUses> = Vec::new();
        let mut i: usize = 0;
        while i < self.asset_data_for_uses.len()
            invariant
                i <= self.asset_data_for_uses@.len(),
                data == self@.asset_data_for_uses,
                assets == self@.asset_by_id,
                uses_resolvable(data, assets),
                asset_data@.len() == i,
                forall|k: int| 0 <= k < i ==> external_use_data(data[k], assets, #[trigger] asset_data@[k]),
            decreases self.asset_data_for_uses@.len() - i,
        {
            let u = &self.asset_data_for_uses[i];
            proof {
                assert(data[i as int] == u@);
            }
            let mut ext_assets: Vec<Option<ExtAsset>> = Vec::new();
            let mut j: usize = 0;
            while j < u.assets_metadata.len()
                invariant
                    j <= u.assets_metadata@.len(),
                    0 <= i < data.len(),
                    data[i as int] == u@,
                    assets == self@.asset_by_id,
                    uses_resolvable(data, assets),
                    ext_assets@.len() == j,
                    forall|k: int|
                        0 <= k < j ==> external_asset(
                            assets[u@.assets_metadata[k].asset_id],
                            u@.assets_metadata[k].tokens_per_use,
                            #[trigger] ext_assets@[k],
                        ),
                decreases u.assets_metadata@.len() - j,
            {
                let m = &u.assets_metadata[j];
                proof {
                    assert(u@.assets_metadata[j as int] == m@);
                    assert(data[i as int].assets_metadata[j as int] == m@);
                }
                let a = match self.asset_by_id.get(&m.asset_id) {
                    Some(a) => a,
                    None => {
                        proof {
                            assert(false);
                        }
                        return ExtDrop {
                            drop_id,
                            funder_id: self.funder_id.clone(),
                            max_key_uses: self.max_key_uses,
                            asset_data: Vec::new(),
                            nft_asset_data: Vec::new(),
                            ft_asset_data: Vec::new(),
                            drop_config: None,
                            next_key_id: self.next_key_id,
                        };
                    },
                };
                let e = a.to_external_asset(&m.tokens_per_use);
                ext_assets.push(e);
                j = j + 1;
            }
            let ext = ExtAssetDataForUses {
                uses: u.uses,
                assets: ext_assets,
                config: crate::types::clone_opt_use_config(&u.config),
            };
            proof {
                assert(external_use_data(data[i as int], assets, ext));
            }
            asset_data.push(ext);
            i = i + 1;
        }
        ExtDrop {
            drop_id,
            funder_id: self.funder_id.clone(),
            max_key_uses: self.max_key_uses,
            asset_data,
            nft_asset_data: nft_list,
            ft_asset_data: ft_list,
            drop_config: copy_drop_config(&self.config),
            next_key_id: self.next_key_id,
        }
    }
}

} // verus!
