//! Drop creation: external assets stored by ID, asset data for each set of uses, and keys added
//! to a drop.

use vstd::prelude::*;
use crate::assets::{
    asset_gas, ext_asset_id, ext_tokens_per_use, fc_asset_prefix, fc_required_gas, internal_of_ext,
    lemma_total_gas_nonneg, lemma_total_gas_prefix, none_asset_id, none_asset_id_string, total_gas,
    AssetView, ExtAsset, FCData, InternalAsset,
};
use crate::external::{hex_decode, hex_decoded};
use crate::state::{
    opt_view, pw_views, set_add, str_vec_contains, vec_contains_str, DropView, InternalDrop,
    InternalKeyInfo, KeyInfoView, Keypom, KeypomView, PasswordForUse, PasswordView,
};
use crate::strmap::StrMap;
use crate::token_id::{decimal, has_colon, make_token_id, token_id_spec, u64_to_decimal};
use crate::types::{
    clone_opt_use_config, AccountId, Balance, DropConfig, DropId, KeypomError, PublicKey, UseConfig,
    UseNumber, GAS_FOR_FC_CLAIM_LOGIC, MAX_KEYS_PER_CALL, MIN_BASE_GAS_FOR_RECEIPT_SPIN_UP,
};
use crate::uses::{
    costs_result, data_views, get_total_costs_for_key, metadata_views, remaining_data_spec,
    AssetDataView, AssetMetadata, ExtAssetDataForUses, InternalAssetDataForUses, MetadataView,
};

verus! {

/// Number of function call assets in a list.
pub open spec fn fc_count(s: Seq<Option<ExtAsset>>) -> nat
    decreases s.len(),
{
    if s.len() == 0 {
        0
    } else {
        fc_count(s.drop_last()) + if s.last() matches Some(ExtAsset::FCAsset(_)) {
            1nat
        } else {
            0nat
        }
    }
}

/// The ID under which the asset at position `i` of a use is stored: `fc&N` for the N-th function
/// call asset of the use, the asset's own ID otherwise, `none-asset` for the null asset.
pub open spec fn asset_id_at(s: Seq<Option<ExtAsset>>, i: int) -> Seq<char> {
    match s[i] {
        Some(ExtAsset::FCAsset(_)) => fc_asset_prefix() + decimal(fc_count(s.take(i)) + 1),
        Some(e) => ext_asset_id(e),
        None => none_asset_id(),
    }
}

/// The internal asset for an optional external asset.
pub open spec fn opt_internal(o: Option<ExtAsset>) -> AssetView {
    match o {
        Some(e) => internal_of_ext(e),
        None => AssetView::none,
    }
}

/// The asset map after storing the assets of a use: each asset goes under its ID unless that ID
/// is taken already.
pub open spec fn stored_assets(m: Map<Seq<char>, AssetView>, s: Seq<Option<ExtAsset>>) -> Map<
    Seq<char>,
    AssetView,
>
    decreases s.len(),
{
    if s.len() == 0 {
        m
    } else {
        let prev = stored_assets(m, s.drop_last());
        let id = asset_id_at(s, s.len() - 1);
        if prev.contains_key(id) {
            prev
        } else {
            prev.insert(id, opt_internal(s.last()))
        }
    }
}

/// Tokens per use recorded for an optional external asset.
pub open spec fn tpu_of(o: Option<ExtAsset>) -> Option<u128> {
    match o {
        Some(e) => Some(ext_tokens_per_use(e)),
        None => None,
    }
}

/// The metadata recorded for the assets of a use.
pub open spec fn metadata_of(s: Seq<Option<ExtAsset>>) -> Seq<MetadataView> {
    Seq::new(s.len(), |i: int| MetadataView { asset_id: asset_id_at(s, i), tokens_per_use: tpu_of(s[i]) })
}

/// Gas of the assets a list of metadata refers to.
pub open spec fn metadata_gas(ms: Seq<MetadataView>, assets: Map<Seq<char>, AssetView>) -> int
    decreases ms.len(),
{
    if ms.len() == 0 {
        0
    } else {
        metadata_gas(ms.drop_last(), assets) + asset_gas(assets[ms.last().asset_id])
    }
}

/// An amount of gas, or `u64::MAX` when it does not fit.
pub open spec fn sat_gas(x: int) -> u64 {
    if x > u64::MAX {
        u64::MAX
    } else {
        x as u64
    }
}

/// The internal asset data for external data, once its assets are stored.
pub open spec fn data_of_ext(e: ExtAssetDataForUses, assets: Map<Seq<char>, AssetView>) -> AssetDataView {
    let ms = metadata_of(e.assets@);
    AssetDataView {
        uses: e.uses,
        config: e.config,
        assets_metadata: ms,
        required_asset_gas: sat_gas(metadata_gas(ms, assets)),
    }
}

/// The asset map after storing the assets of every use in order.
pub open spec fn stored_assets_all(m: Map<Seq<char>, AssetView>, ds: Seq<ExtAssetDataForUses>) -> Map<
    Seq<char>,
    AssetView,
>
    decreases ds.len(),
{
    if ds.len() == 0 {
        m
    } else {
        stored_assets(stored_assets_all(m, ds.drop_last()), ds.last().assets@)
    }
}

/// The internal asset data of every use.
pub open spec fn datas_of_ext(ds: Seq<ExtAssetDataForUses>, assets: Map<Seq<char>, AssetView>) -> Seq<
    AssetDataView,
> {
    Seq::new(ds.len(), |i: int| data_of_ext(ds[i], assets))
}

/// Total uses of a list of asset data.
pub open spec fn sum_uses(ds: Seq<ExtAssetDataForUses>) -> int
    decreases ds.len(),
{
    if ds.len() == 0 {
        0
    } else {
        sum_uses(ds.drop_last()) + ds.last().uses
    }
}

/// The counted function call assets never outnumber the assets.
pub proof fn lemma_fc_count_le(s: Seq<Option<ExtAsset>>)
    ensures
        fc_count(s) <= s.len(),
    decreases s.len(),
{
    if s.len() > 0 {
        lemma_fc_count_le(s.drop_last());
    }
}

/// Storing assets keeps what was stored and stores every ID of the use.
pub proof fn lemma_stored_assets(m: Map<Seq<char>, AssetView>, s: Seq<Option<ExtAsset>>)
    ensures
        forall|k: Seq<char>| #[trigger] m.contains_key(k) ==> stored_assets(m, s).contains_key(k)
            && stored_assets(m, s)[k] == m[k],
        forall|i: int| 0 <= i < s.len() ==> stored_assets(m, s).contains_key(#[trigger] asset_id_at(s, i)),
    decreases s.len(),
{
    if s.len() > 0 {
        let p = s.drop_last();
        lemma_stored_assets(m, p);
        assert forall|i: int| 0 <= i < s.len() implies stored_assets(m, s).contains_key(
            #[trigger] asset_id_at(s, i),
        ) by {
            if i < s.len() - 1 {
                assert(p.take(i) =~= s.take(i));
                assert(p[i] == s[i]);
                assert(asset_id_at(p, i) == asset_id_at(s, i));
            }
        }
    }
}

/// Storing the assets of every use keeps what was stored and stores every ID of every use.
pub proof fn lemma_stored_assets_all(m: Map<Seq<char>, AssetView>, ds: Seq<ExtAssetDataForUses>)
    ensures
        forall|k: Seq<char>| #[trigger] m.contains_key(k) ==> stored_assets_all(m, ds).contains_key(k)
            && stored_assets_all(m, ds)[k] == m[k],
        forall|u: int, i: int|
            0 <= u < ds.len() && 0 <= i < ds[u].assets@.len() ==> stored_assets_all(m, ds).contains_key(
                #[trigger] asset_id_at(ds[u].assets@, i),
            ),
    decreases ds.len(),
{
    if ds.len() > 0 {
        let p = ds.drop_last();
        lemma_stored_assets_all(m, p);
        let mp = stored_assets_all(m, p);
        lemma_stored_assets(mp, ds.last().assets@);
        assert forall|u: int, i: int|
            0 <= u < ds.len() && 0 <= i < ds[u].assets@.len() implies stored_assets_all(m, ds).contains_key(
            #[trigger] asset_id_at(ds[u].assets@, i),
        ) by {
            if u < ds.len() - 1 {
                assert(p[u] == ds[u]);
                assert(mp.contains_key(asset_id_at(p[u].assets@, i)));
            }
        }
    }
}

/// The text `fc&` followed by a number.
fn fc_asset_id(n: u64) -> (s: String)
    ensures
        s@ == fc_asset_prefix() + decimal(n as nat),
{
    let mut s = String::from_str("fc&");
    let d = u64_to_decimal(n);
    s.append(d.as_str());
    proof {
        reveal_strlit("fc&");
        assert(s@ =~= fc_asset_prefix() + decimal(n as nat));
    }
    s
}

/// The ID under which an asset of a use is stored, given how many function call assets came
/// before it (this one included, when it is one).
fn asset_id_for(e: &Option<ExtAsset>, fc_idx: u64) -> (id: String)
    ensures
        e matches Some(ExtAsset::FCAsset(_)) ==> id@ == fc_asset_prefix() + decimal(fc_idx as nat),
        (e is Some && !(e.unwrap() is FCAsset)) ==> id@ == ext_asset_id(e.unwrap()),
        e is None ==> id@ == none_asset_id(),
{
    match e {
        Some(ExtAsset::FCAsset(_)) => fc_asset_id(fc_idx),
        Some(a) => a.get_asset_id(),
        None => none_asset_id_string(),
    }
}

/// Store the assets of a use by ID. An ID that is taken already keeps its asset.
pub fn store_assets_by_id(ext_assets: &Vec<Option<ExtAsset>>, asset_by_id: &mut StrMap<InternalAsset>)
    ensures
        final(asset_by_id)@ == stored_assets(old(asset_by_id)@, ext_assets@),
{
    let ghost m0 = asset_by_id@;
    let ghost s = ext_assets@;
    let mut fc_idx: u64 = 0;
    let mut i: usize = 0;
    proof {
        assert(s.take(0) =~= Seq::<Option<ExtAsset>>::empty());
    }
    while i < ext_assets.len()
        invariant
            s == ext_assets@,
            i <= s.len(),
            fc_idx == fc_count(s.take(i as int)),
            fc_idx <= i,
            asset_by_id@ == stored_assets(m0, s.take(i as int)),
        decreases s.len() - i,
    {
        let e = &ext_assets[i];
        let ghost t = s.take(i + 1);
        proof {
            assert(t.drop_last() =~= s.take(i as int));
            assert(t.last() == s[i as int]);
            assert(t.take(i as int) =~= s.take(i as int));
            lemma_fc_count_le(s.take(i as int));
        }
        let is_fc = match e {
            Some(ExtAsset::FCAsset(_)) => true,
            _ => false,
        };
        if is_fc {
            fc_idx = fc_idx + 1;
        }
        let asset_id = asset_id_for(e, fc_idx);
        proof {
            assert(asset_id@ == asset_id_at(t, i as int));
        }
        if !asset_by_id.contains_key(&asset_id) {
            let internal = match e {
                Some(a) => a.to_internal_asset(),
                None => InternalAsset::none,
            };
            asset_by_id.insert(asset_id, internal);
        }
        i = i + 1;
    }
    proof {
        assert(s.take(s.len() as int) =~= s);
    }
}

/// Gas of one claim of a function call asset, or `u64::MAX` when it does not fit.
fn fc_gas_saturating(f: &FCData) -> (g: u64)
    ensures
        g == sat_gas(fc_required_gas(f@)),
{
    let n = f.methods.len();
    let mut total: u64 = 0;
    let mut i: usize = 0;
    proof {
        lemma_total_gas_nonneg(f@);
        assert(MIN_BASE_GAS_FOR_RECEIPT_SPIN_UP * f@.len() >= 0) by (nonlinear_arith);
    }
    while i < n
        invariant
            n == f@.len(),
            i <= n,
            total == total_gas(f@.take(i as int)),
        decreases n - i,
    {
        proof {
            assert(f@.take(i + 1).drop_last() =~= f@.take(i as int));
        }
        match total.checked_add(f.methods[i].attached_gas) {
            Some(t) => {
                total = t;
            },
            None => {
                proof {
                    lemma_total_gas_prefix(f@, i + 1);
                    assert(MIN_BASE_GAS_FOR_RECEIPT_SPIN_UP * f@.len() >= 0) by (nonlinear_arith);
                }
                return u64::MAX;
            },
        }
        i = i + 1;
    }
    proof {
        assert(f@.take(n as int) =~= f@);
    }
    let spin_up = match MIN_BASE_GAS_FOR_RECEIPT_SPIN_UP.checked_mul(n as u64) {
        Some(x) => x,
        None => {
            return u64::MAX;
        },
    };
    match total.checked_add(spin_up) {
        Some(x) => match x.checked_add(GAS_FOR_FC_CLAIM_LOGIC) {
            Some(y) => y,
            None => u64::MAX,
        },
        None => u64::MAX,
    }
}

/// Gas of one claim of an asset, or `u64::MAX` when it does not fit.
pub(crate) fn asset_gas_saturating(a: &InternalAsset) -> (g: u64)
    ensures
        g == sat_gas(asset_gas(a@)),
{
    match a {
        InternalAsset::fc(f) => fc_gas_saturating(f),
        _ => a.get_total_required_gas(),
    }
}

/// The gas of assets is never negative.
pub proof fn lemma_asset_gas_nonneg(a: AssetView)
    ensures
        asset_gas(a) >= 0,
{
    if a is fc {
        lemma_total_gas_nonneg(a->fc_0);
        assert(MIN_BASE_GAS_FOR_RECEIPT_SPIN_UP * a->fc_0.len() >= 0) by (nonlinear_arith);
    }
}

impl InternalAssetDataForUses {
    /// The internal asset data for external data whose assets are stored: the metadata of each
    /// asset and the gas of one use.
    pub fn from_ext(ext_asset_data: &ExtAssetDataForUses, asset_by_id: &StrMap<InternalAsset>) -> (r: Self)
        requires
            forall|i: int|
                0 <= i < ext_asset_data.assets@.len() ==> asset_by_id@.contains_key(
                    #[trigger] asset_id_at(ext_asset_data.assets@, i),
                ),
        ensures
            r@ == data_of_ext(*ext_asset_data, asset_by_id@),
    {
        let ghost s = ext_asset_data.assets@;
        let ghost full = metadata_of(s);
        let mut ms: Vec<AssetMetadata> = Vec::new();
        let mut gas: u64 = 0;
        let mut fc_idx: u64 = 0;
        let mut i: usize = 0;
        proof {
            assert(s.take(0) =~= Seq::<Option<ExtAsset>>::empty());
            assert(metadata_views(ms@) =~= full.take(0));
        }
        while i < ext_asset_data.assets.len()
            invariant
                s == ext_asset_data.assets@,
                full == metadata_of(s),
                i <= s.len(),
                fc_idx == fc_count(s.take(i as int)),
                fc_idx <= i,
                metadata_views(ms@) == full.take(i as int),
                gas == sat_gas(metadata_gas(full.take(i as int), asset_by_id@)),
                metadata_gas(full.take(i as int), asset_by_id@) >= 0,
                forall|j: int| 0 <= j < s.len() ==> asset_by_id@.contains_key(#[trigger] asset_id_at(s, j)),
            decreases s.len() - i,
        {
            let e = &ext_asset_data.assets[i];
            let ghost t = s.take(i + 1);
            proof {
                assert(t.drop_last() =~= s.take(i as int));
                assert(t.last() == s[i as int]);
                lemma_fc_count_le(s.take(i as int));
            }
            let is_fc = match e {
                Some(ExtAsset::FCAsset(_)) => true,
                _ => false,
            };
            if is_fc {
                fc_idx = fc_idx + 1;
            }
            let asset_id = asset_id_for(e, fc_idx);
            proof {
                assert(asset_id@ == asset_id_at(s, i as int));
                assert(asset_by_id@.contains_key(asset_id_at(s, i as int)));
            }
            let tokens_per_use = match e {
                Some(a) => Some(a.get_tokens_per_use()),
                None => None,
            };
            let g = match asset_by_id.get(&asset_id) {
                Some(a) => asset_gas_saturating(a),
                None => 0,
            };
            let ghost old_ms = ms@;
            let ghost gsum = metadata_gas(full.take(i as int), asset_by_id@);
            let ghost ag = asset_gas(asset_by_id@[asset_id@]);
            proof {
                lemma_asset_gas_nonneg(asset_by_id@[asset_id@]);
                assert(full.take(i + 1).drop_last() =~= full.take(i as int));
                assert(full.take(i + 1).last() == full[i as int]);
                assert(full[i as int].asset_id == asset_id@);
            }
            gas = gas.saturating_add(g);
            let item = AssetMetadata { asset_id, tokens_per_use };
            ms.push(item);
            proof {
                assert(metadata_gas(full.take(i + 1), asset_by_id@) == gsum + ag);
                assert(ms@ == old_ms.push(item));
                assert(metadata_views(ms@) =~= metadata_views(old_ms).push(item@));
                assert(metadata_views(ms@) =~= full.take(i + 1));
            }
            i = i + 1;
        }
        proof {
            assert(full.take(s.len() as int) =~= full);
        }
        InternalAssetDataForUses {
            uses: ext_asset_data.uses,
            config: clone_opt_use_config(&ext_asset_data.config),
            assets_metadata: ms,
            required_asset_gas: gas,
        }
    }
}

/// A password for one use, as the funder gives it (hex text of the expected digest).
pub struct JsonPasswordForUse {
    /// The password, hex encoded.
    pub pw: String,
    /// The use it guards.
    pub key_use: u64,
}

/// A key as it comes into the contract.
pub struct ExtKeyData {
    /// The public key.
    pub public_key: PublicKey,
    /// Passwords by use.
    pub password_by_use: Option<Vec<JsonPasswordForUse>>,
    /// Metadata of the key.
    pub metadata: Option<String>,
    /// The account that owns the key, if any.
    pub key_owner: Option<AccountId>,
}

/// Whether every password of a list is valid hex.
pub open spec fn pws_decodable(v: Seq<JsonPasswordForUse>) -> bool {
    forall|i: int| 0 <= i < v.len() ==> (#[trigger] hex_decoded(v[i].pw@)) is Some
}

/// The stored form of a list of passwords.
pub open spec fn decoded_pws(v: Seq<JsonPasswordForUse>) -> Seq<PasswordView> {
    Seq::new(v.len(), |i: int| PasswordView { use_number: v[i].key_use, pw: hex_decoded(v[i].pw@).unwrap() })
}

/// Whether the passwords of a key are valid hex.
pub open spec fn key_pws_ok(k: ExtKeyData) -> bool {
    match k.password_by_use {
        Some(v) => pws_decodable(v@),
        None => true,
    }
}

/// The stored passwords of a key.
pub open spec fn key_pws(k: ExtKeyData) -> Option<Seq<PasswordView>> {
    match k.password_by_use {
        Some(v) => Some(decoded_pws(v@)),
        None => None,
    }
}

/// Whether a public key occurs in a list of keys.
pub open spec fn pk_in(keys: Seq<ExtKeyData>, pk: Seq<char>) -> bool {
    exists|j: int| 0 <= j < keys.len() && (#[trigger] keys[j]).public_key@ == pk
}

/// The first refusal met when adding keys in order, the first getting nonce `start`: a public
/// key that is registered or repeated, a password that is not hex, or a nonce past `u64::MAX`.
pub open spec fn key_batch_error(m: Map<Seq<char>, Seq<char>>, keys: Seq<ExtKeyData>, start: int) -> Option<
    KeypomError,
>
    decreases keys.len(),
{
    if keys.len() == 0 {
        None
    } else {
        match key_batch_error(m, keys.drop_last(), start) {
            Some(e) => Some(e),
            None => {
                let k = keys.last();
                if m.contains_key(k.public_key@) || pk_in(keys.drop_last(), k.public_key@) {
                    Some(KeypomError::KeyAlreadyAdded)
                } else if !key_pws_ok(k) {
                    Some(KeypomError::InvalidHex)
                } else if start + keys.len() > u64::MAX {
                    Some(KeypomError::Overflow)
                } else {
                    None
                }
            },
        }
    }
}

/// What is stored for a new key with the given uses.
pub open spec fn new_key_info(k: ExtKeyData, uses: UseNumber) -> KeyInfoView {
    KeyInfoView {
        pub_key: k.public_key@,
        remaining_uses: uses,
        owner_id: opt_view(k.key_owner),
        last_claimed: 0,
        metadata: opt_view(k.metadata),
        pw_by_use: key_pws(k),
        approved_account_ids: Map::empty(),
        next_approval_id: 0,
    }
}

/// Token IDs of the public keys after adding keys whose nonces start at `start`.
pub open spec fn keys_pk_map(m: Map<Seq<char>, Seq<char>>, drop_id: Seq<char>, start: int, keys: Seq<ExtKeyData>) -> Map<
    Seq<char>,
    Seq<char>,
>
    decreases keys.len(),
{
    if keys.len() == 0 {
        m
    } else {
        keys_pk_map(m, drop_id, start, keys.drop_last()).insert(
            keys.last().public_key@,
            token_id_spec(drop_id, (start + keys.len() - 1) as u64),
        )
    }
}

/// Keys of a drop by token ID after adding keys whose nonces start at `start`.
pub open spec fn keys_info_map(
    m: Map<Seq<char>, KeyInfoView>,
    drop_id: Seq<char>,
    start: int,
    keys: Seq<ExtKeyData>,
    uses: UseNumber,
) -> Map<Seq<char>, KeyInfoView>
    decreases keys.len(),
{
    if keys.len() == 0 {
        m
    } else {
        keys_info_map(m, drop_id, start, keys.drop_last(), uses).insert(
            token_id_spec(drop_id, (start + keys.len() - 1) as u64),
            new_key_info(keys.last(), uses),
        )
    }
}

/// Tokens per owner after adding keys whose nonces start at `start`.
pub open spec fn keys_owner_map(
    m: Map<Seq<char>, Map<Seq<char>, ()>>,
    drop_id: Seq<char>,
    start: int,
    keys: Seq<ExtKeyData>,
) -> Map<Seq<char>, Map<Seq<char>, ()>>
    decreases keys.len(),
{
    if keys.len() == 0 {
        m
    } else {
        let prev = keys_owner_map(m, drop_id, start, keys.drop_last());
        match keys.last().key_owner {
            Some(o) => set_add(prev, o@, token_id_spec(drop_id, (start + keys.len() - 1) as u64)),
            None => prev,
        }
    }
}

/// A refusal met on a prefix of the keys is the refusal of the whole batch.
pub proof fn lemma_key_error_prefix(m: Map<Seq<char>, Seq<char>>, keys: Seq<ExtKeyData>, start: int, k: int)
    requires
        0 <= k <= keys.len(),
        key_batch_error(m, keys.take(k), start) is Some,
    ensures
        key_batch_error(m, keys, start) == key_batch_error(m, keys.take(k), start),
    decreases keys.len() - k,
{
    if k < keys.len() {
        assert(keys.take(k + 1).drop_last() =~= keys.take(k));
        lemma_key_error_prefix(m, keys, start, k + 1);
    } else {
        assert(keys.take(k) =~= keys);
    }
}

/// Decode a list of passwords; `None` when one is not hex.
fn decode_passwords(v: &Vec<JsonPasswordForUse>) -> (r: Option<Vec<PasswordForUse>>)
    ensures
        r is Some <==> pws_decodable(v@),
        r matches Some(p) ==> pw_views(p@) == decoded_pws(v@),
{
    let mut out: Vec<PasswordForUse> = Vec::new();
    let mut i: usize = 0;
    while i < v.len()
        invariant
            i <= v@.len(),
            pw_views(out@) == decoded_pws(v@).take(i as int),
            forall|j: int| 0 <= j < i ==> (#[trigger] hex_decoded(v@[j].pw@)) is Some,
        decreases v@.len() - i,
    {
        match hex_decode(v[i].pw.as_str()) {
            Some(bytes) => {
                let item = PasswordForUse { use_number: v[i].key_use, pw: bytes };
                let ghost before = out@;
                out.push(item);
                proof {
                    assert(out@ == before.push(item));
                    assert(pw_views(out@) =~= pw_views(before).push(item@));
                    assert(pw_views(out@) =~= decoded_pws(v@).take(i + 1));
                }
            },
            None => {
                return None;
            },
        }
        i = i + 1;
    }
    proof {
        assert(decoded_pws(v@).take(v@.len() as int) =~= decoded_pws(v@));
    }
    Some(out)
}

/// Decode the passwords of a key; `None` when one is not hex.
fn decode_key_passwords(k: &ExtKeyData) -> (r: Option<Option<Vec<PasswordForUse>>>)
    ensures
        r is Some <==> key_pws_ok(*k),
        r matches Some(p) ==> match p {
            Some(v) => key_pws(*k) == Some(pw_views(v@)),
            None => key_pws(*k) is None,
        },
{
    match &k.password_by_use {
        Some(v) => match decode_passwords(v) {
            Some(d) => Some(Some(d)),
            None => None,
        },
        None => Some(None),
    }
}

/// Copy an optional string.
fn copy_opt(a: &Option<String>) -> (r: Option<String>)
    ensures
        opt_view(r) == opt_view(*a),
{
    match a {
        Some(s) => Some(s.clone()),
        None => None,
    }
}

impl Keypom {
    /// Check a batch of keys before adding it, the first getting nonce `start`.
    pub fn validate_keys(&self, key_data: &Vec<ExtKeyData>, start: u64) -> (r: Result<(), KeypomError>)
        ensures
            match key_batch_error(self@.token_id_by_pk, key_data@, start as int) {
                Some(e) => r == Err::<(), KeypomError>(e),
                None => r is Ok,
            },
    {
        let ghost m = self@.token_id_by_pk;
        let ghost keys = key_data@;
        let mut i: usize = 0;
        proof {
            assert(keys.take(0) =~= Seq::<ExtKeyData>::empty());
        }
        while i < key_data.len()
            invariant
                m == self@.token_id_by_pk,
                keys == key_data@,
                i <= keys.len(),
                key_batch_error(m, keys.take(i as int), start as int) is None,
            decreases keys.len() - i,
        {
            let k = &key_data[i];
            let ghost t = keys.take(i + 1);
            proof {
                assert(t.drop_last() =~= keys.take(i as int));
                assert(t.last() == keys[i as int]);
            }
            let mut dup = self.token_id_by_pk.contains_key(&k.public_key);
            let mut j: usize = 0;
            while j < i && !dup
                invariant
                    keys == key_data@,
                    j <= i < keys.len(),
                    !dup ==> forall|q: int| 0 <= q < j ==> (#[trigger] keys[q]).public_key@ != keys[i as int].public_key@,
                    dup ==> (m.contains_key(keys[i as int].public_key@) || pk_in(keys.take(i as int), keys[i as int].public_key@)),
                    !dup ==> !m.contains_key(keys[i as int].public_key@),
                    m == self@.token_id_by_pk,
                    k == &keys[i as int],
                decreases i - j,
            {
                if key_data[j].public_key == k.public_key {
                    dup = true;
                    proof {
                        assert(keys.take(i as int)[j as int] == keys[j as int]);
                    }
                }
                j = j + 1;
            }
            if dup {
                proof {
                    lemma_key_error_prefix(m, keys, start as int, i + 1);
                }
                return Err(KeypomError::KeyAlreadyAdded);
            }
            proof {
                assert(!pk_in(keys.take(i as int), keys[i as int].public_key@)) by {
                    assert forall|q: int| 0 <= q < i implies (#[trigger] keys.take(i as int)[q]).public_key@
                        != keys[i as int].public_key@ by {
                        assert(keys.take(i as int)[q] == keys[q]);
                    }
                }
            }
            if decode_key_passwords(k).is_none() {
                proof {
                    lemma_key_error_prefix(m, keys, start as int, i + 1);
                }
                return Err(KeypomError::InvalidHex);
            }
            if i as u64 >= u64::MAX - start {
                proof {
                    lemma_key_error_prefix(m, keys, start as int, i + 1);
                }
                return Err(KeypomError::Overflow);
            }
            i = i + 1;
        }
        proof {
            assert(keys.take(keys.len() as int) =~= keys);
        }
        Ok(())
    }

    /// Add a batch of keys to a drop: each public key is registered under the token ID
    /// `drop_id:nonce`, owned keys are recorded for their owner, and the key is stored with the
    /// drop's uses. Refused as `key_batch_error` describes, changing nothing.
    pub fn internal_add_keys_to_account(
        &mut self,
        next_key_id: &mut u64,
        key_info_by_token_id: &mut StrMap<InternalKeyInfo>,
        drop_id: &DropId,
        max_uses_per_key: UseNumber,
        key_data: &Vec<ExtKeyData>,
    ) -> (r: Result<(), KeypomError>)
        ensures
            match key_batch_error(old(self)@.token_id_by_pk, key_data@, *old(next_key_id) as int) {
                Some(e) => {
                    &&& r == Err::<(), KeypomError>(e)
                    &&& final(self)@ == old(self)@
                    &&& *final(next_key_id) == *old(next_key_id)
                    &&& final(key_info_by_token_id)@ == old(key_info_by_token_id)@
                },
                None => {
                    &&& r is Ok
                    &&& final(self)@ == (KeypomView {
                        token_id_by_pk: keys_pk_map(
                            old(self)@.token_id_by_pk,
                            drop_id@,
                            *old(next_key_id) as int,
                            key_data@,
                        ),
                        tokens_per_owner: keys_owner_map(
                            old(self)@.tokens_per_owner,
                            drop_id@,
                            *old(next_key_id) as int,
                            key_data@,
                        ),
                        ..old(self)@
                    })
                    &&& *final(next_key_id) == *old(next_key_id) + key_data@.len()
                    &&& final(key_info_by_token_id)@ == keys_info_map(
                        old(key_info_by_token_id)@,
                        drop_id@,
                        *old(next_key_id) as int,
                        key_data@,
                        max_uses_per_key,
                    )
                },
            },
    {
        self.validate_keys(key_data, *next_key_id)?;
        let ghost s0 = self@;
        let ghost start = *next_key_id as int;
        let ghost info0 = key_info_by_token_id@;
        let ghost keys = key_data@;
        let mut i: usize = 0;
        proof {
            assert(keys.take(0) =~= Seq::<ExtKeyData>::empty());
            lemma_key_batch_ok_bound(s0.token_id_by_pk, keys, start);
        }
        while i < key_data.len()
            invariant
                keys == key_data@,
                i <= keys.len(),
                start + keys.len() <= u64::MAX,
                *next_key_id == start + i,
                key_batch_error(s0.token_id_by_pk, keys, start) is None,
                self@ == (KeypomView {
                    token_id_by_pk: keys_pk_map(s0.token_id_by_pk, drop_id@, start, keys.take(i as int)),
                    tokens_per_owner: keys_owner_map(s0.tokens_per_owner, drop_id@, start, keys.take(i as int)),
                    ..s0
                }),
                key_info_by_token_id@ == keys_info_map(info0, drop_id@, start, keys.take(i as int), max_uses_per_key),
            decreases keys.len() - i,
        {
            let k = &key_data[i];
            let ghost t = keys.take(i + 1);
            proof {
                assert(t.drop_last() =~= keys.take(i as int));
                assert(t.last() == keys[i as int]);
                lemma_key_batch_ok_prefix(s0.token_id_by_pk, keys, start, i + 1);
                assert(key_pws_ok(keys[i as int]));
            }
            let token_id = make_token_id(drop_id, *next_key_id);
            let pws = match decode_key_passwords(k) {
                Some(p) => p,
                None => None,
            };
            self.token_id_by_pk.insert(k.public_key.clone(), token_id.clone());
            match &k.key_owner {
                Some(o) => self.internal_add_token_to_owner(o, &token_id),
                None => {},
            }
            let info = InternalKeyInfo {
                pub_key: k.public_key.clone(),
                remaining_uses: max_uses_per_key,
                owner_id: copy_opt(&k.key_owner),
                last_claimed: 0,
                metadata: copy_opt(&k.metadata),
                pw_by_use: pws,
                approved_account_ids: StrMap::new(),
                next_approval_id: 0,
            };
            proof {
                assert(info@ == new_key_info(keys[i as int], max_uses_per_key));
            }
            key_info_by_token_id.insert(token_id, info);
            *next_key_id = *next_key_id + 1;
            i = i + 1;
        }
        proof {
            assert(keys.take(keys.len() as int) =~= keys);
        }
        Ok(())
    }
}

/// Accepted batches of keys end with a nonce that fits.
pub proof fn lemma_key_batch_ok_bound(m: Map<Seq<char>, Seq<char>>, keys: Seq<ExtKeyData>, start: int)
    requires
        key_batch_error(m, keys, start) is None,
        0 <= start <= u64::MAX,
    ensures
        start + keys.len() <= u64::MAX,
{
}

/// Every prefix of an accepted batch of keys is accepted.
pub proof fn lemma_key_batch_ok_prefix(m: Map<Seq<char>, Seq<char>>, keys: Seq<ExtKeyData>, start: int, k: int)
    requires
        0 <= k <= keys.len(),
        key_batch_error(m, keys, start) is None,
    ensures
        key_batch_error(m, keys.take(k), start) is None,
    decreases keys.len() - k,
{
    if k < keys.len() {
        lemma_key_batch_ok_prefix(m, keys, start, k + 1);
        assert(keys.take(k + 1).drop_last() =~= keys.take(k));
    } else {
        assert(keys.take(k) =~= keys);
    }
}

/// The assets of a new drop.
pub open spec fn drop_assets(ds: Seq<ExtAssetDataForUses>) -> Map<Seq<char>, AssetView> {
    stored_assets_all(Map::empty(), ds)
}

/// What one key of a new drop costs: `costs_result` of all its uses.
pub open spec fn drop_cost_result(ds: Seq<ExtAssetDataForUses>, now: u64) -> Result<int, KeypomError> {
    costs_result(
        remaining_data_spec(datas_of_ext(ds, drop_assets(ds)), sum_uses(ds)),
        drop_assets(ds),
        now,
    )
}

/// The first refusal met when creating a drop, if any.
pub open spec fn create_drop_error(
    s: KeypomView,
    predecessor: Seq<char>,
    drop_id: Seq<char>,
    keys: Seq<ExtKeyData>,
    ds: Seq<ExtAssetDataForUses>,
    now: u64,
) -> Option<KeypomError> {
    if predecessor != s.contract_owner_id && s.global_freeze {
        Some(KeypomError::GlobalFreeze)
    } else if drop_id.contains(':') {
        Some(KeypomError::DropIdHasColon)
    } else if s.drop_by_id.contains_key(drop_id) {
        Some(KeypomError::DropExists)
    } else if keys.len() > MAX_KEYS_PER_CALL {
        Some(KeypomError::BadKeyCount)
    } else if sum_uses(ds) > u32::MAX {
        Some(KeypomError::Overflow)
    } else {
        match drop_cost_result(ds, now) {
            Err(e) => Some(e),
            Ok(_) => key_batch_error(s.token_id_by_pk, keys, 0),
        }
    }
}

/// A new drop as it is stored.
pub open spec fn created_drop(
    predecessor: Seq<char>,
    drop_id: Seq<char>,
    keys: Seq<ExtKeyData>,
    ds: Seq<ExtAssetDataForUses>,
    config: Option<DropConfig>,
) -> DropView {
    let uses = sum_uses(ds) as u32;
    DropView {
        funder_id: predecessor,
        max_key_uses: uses,
        asset_by_id: drop_assets(ds),
        asset_data_for_uses: datas_of_ext(ds, drop_assets(ds)),
        key_info_by_token_id: keys_info_map(Map::empty(), drop_id, 0, keys, uses),
        next_key_id: keys.len() as u64,
        config,
    }
}

/// The state after creating a drop.
pub open spec fn create_drop_state(
    s: KeypomView,
    predecessor: Seq<char>,
    drop_id: Seq<char>,
    keys: Seq<ExtKeyData>,
    ds: Seq<ExtAssetDataForUses>,
    config: Option<DropConfig>,
) -> KeypomView {
    KeypomView {
        drop_by_id: s.drop_by_id.insert(drop_id, created_drop(predecessor, drop_id, keys, ds, config)),
        token_id_by_pk: keys_pk_map(s.token_id_by_pk, drop_id, 0, keys),
        tokens_per_owner: keys_owner_map(s.tokens_per_owner, drop_id, 0, keys),
        drop_ids_by_funder: set_add(s.drop_ids_by_funder, predecessor, drop_id),
        ..s
    }
}

/// Whether an account may add keys to a drop: its funder, or an account on the drop's allowlist.
pub open spec fn may_add_keys(d: DropView, predecessor: Seq<char>) -> bool {
    match d.config {
        Some(c) => match c.add_key_allowlist {
            Some(l) => d.funder_id == predecessor || str_vec_contains(l@, predecessor),
            None => d.funder_id == predecessor,
        },
        None => d.funder_id == predecessor,
    }
}

/// The first refusal met when adding keys to a drop, if any.
pub open spec fn add_keys_error(
    s: KeypomView,
    predecessor: Seq<char>,
    drop_id: Seq<char>,
    keys: Seq<ExtKeyData>,
    now: u64,
) -> Option<KeypomError> {
    if predecessor != s.contract_owner_id && s.global_freeze {
        Some(KeypomError::GlobalFreeze)
    } else if !s.drop_by_id.contains_key(drop_id) {
        Some(KeypomError::DropNotFound)
    } else {
        let d = s.drop_by_id[drop_id];
        if keys.len() == 0 || keys.len() > MAX_KEYS_PER_CALL {
            Some(KeypomError::BadKeyCount)
        } else if !may_add_keys(d, predecessor) {
            Some(KeypomError::NotFunder)
        } else {
            match costs_result(
                remaining_data_spec(d.asset_data_for_uses, d.max_key_uses as int),
                d.asset_by_id,
                now,
            ) {
                Err(e) => Some(e),
                Ok(_) => key_batch_error(s.token_id_by_pk, keys, d.next_key_id as int),
            }
        }
    }
}

/// The state after adding keys to a drop.
pub open spec fn add_keys_state(s: KeypomView, drop_id: Seq<char>, keys: Seq<ExtKeyData>) -> KeypomView {
    let d = s.drop_by_id[drop_id];
    KeypomView {
        drop_by_id: s.drop_by_id.insert(
            drop_id,
            DropView {
                key_info_by_token_id: keys_info_map(
                    d.key_info_by_token_id,
                    drop_id,
                    d.next_key_id as int,
                    keys,
                    d.max_key_uses,
                ),
                next_key_id: (d.next_key_id + keys.len()) as u64,
                ..d
            },
        ),
        token_id_by_pk: keys_pk_map(s.token_id_by_pk, drop_id, d.next_key_id as int, keys),
        tokens_per_owner: keys_owner_map(s.tokens_per_owner, drop_id, d.next_key_id as int, keys),
        ..s
    }
}

/// Sums of uses over a prefix never exceed the total.
pub proof fn lemma_sum_uses_prefix(ds: Seq<ExtAssetDataForUses>, k: int)
    requires
        0 <= k <= ds.len(),
    ensures
        0 <= sum_uses(ds.take(k)) <= sum_uses(ds),
    decreases ds.len() - k,
{
    lemma_sum_uses_nonneg(ds.take(k));
    if k < ds.len() {
        lemma_sum_uses_prefix(ds, k + 1);
        assert(ds.take(k + 1).drop_last() =~= ds.take(k));
    } else {
        assert(ds.take(k) =~= ds);
    }
}

/// Sums of uses are natural.
pub proof fn lemma_sum_uses_nonneg(ds: Seq<ExtAssetDataForUses>)
    ensures
        sum_uses(ds) >= 0,
    decreases ds.len(),
{
    if ds.len() > 0 {
        lemma_sum_uses_nonneg(ds.drop_last());
    }
}

impl Keypom {
    /// Create a drop funded by the caller: its assets are stored by ID, its asset data built, and
    /// its keys added. Refused as `create_drop_error` describes, changing nothing. Returns what
    /// one key costs the funder in assets; storage and fees are charged by `determine_costs`.
    pub fn internal_create_drop(
        &mut self,
        predecessor: &AccountId,
        drop_id: DropId,
        key_data: Vec<ExtKeyData>,
        asset_data: Vec<ExtAssetDataForUses>,
        drop_config: Option<DropConfig>,
        block_timestamp: u64,
    ) -> (r: Result<Balance, KeypomError>)
        ensures
            match create_drop_error(old(self)@, predecessor@, drop_id@, key_data@, asset_data@, block_timestamp) {
                Some(e) => r == Err::<Balance, KeypomError>(e) && final(self)@ == old(self)@,
                None => {
                    &&& drop_cost_result(asset_data@, block_timestamp) matches Ok(c) && r == Ok::<
                        Balance,
                        KeypomError,
                    >(c as u128)
                    &&& final(self)@ == create_drop_state(
                        old(self)@,
                        predecessor@,
                        drop_id@,
                        key_data@,
                        asset_data@,
                        drop_config,
                    )
                },
            },
    {
        self.assert_no_global_freeze(predecessor)?;
        if has_colon(&drop_id) {
            return Err(KeypomError::DropIdHasColon);
        }
        if self.drop_by_id.contains_key(&drop_id) {
            return Err(KeypomError::DropExists);
        }
        if key_data.len() > MAX_KEYS_PER_CALL {
            return Err(KeypomError::BadKeyCount);
        }
        let ghost ds = asset_data@;
        let mut asset_by_id: StrMap<InternalAsset> = StrMap::new();
        let mut max_key_uses: u32 = 0;
        let mut i: usize = 0;
        proof {
            assert(ds.take(0) =~= Seq::<ExtAssetDataForUses>::empty());
        }
        while i < asset_data.len()
            invariant
                ds == asset_data@,
                i <= ds.len(),
                asset_by_id@ == stored_assets_all(Map::empty(), ds.take(i as int)),
                max_key_uses == sum_uses(ds.take(i as int)),
                self@ == old(self)@,
                !(predecessor@ != self@.contract_owner_id && self@.global_freeze),
                !drop_id@.contains(':'),
                !self@.drop_by_id.contains_key(drop_id@),
                key_data@.len() <= MAX_KEYS_PER_CALL,
            decreases ds.len() - i,
        {
            proof {
                assert(ds.take(i + 1).drop_last() =~= ds.take(i as int));
                assert(ds.take(i + 1).last() == ds[i as int]);
            }
            store_assets_by_id(&asset_data[i].assets, &mut asset_by_id);
            match max_key_uses.checked_add(asset_data[i].uses) {
                Some(v) => {
                    max_key_uses = v;
                },
                None => {
                    proof {
                        lemma_sum_uses_prefix(ds, i + 1);
                    }
                    return Err(KeypomError::Overflow);
                },
            }
            i = i + 1;
        }
        proof {
            assert(ds.take(ds.len() as int) =~= ds);
            lemma_stored_assets_all(Map::empty(), ds);
        }
        let ghost assets = drop_assets(ds);
        let mut datas: Vec<InternalAssetDataForUses> = Vec::new();
        let mut j: usize = 0;
        proof {
            assert(data_views(datas@) =~= datas_of_ext(ds, assets).take(0));
        }
        while j < asset_data.len()
            invariant
                ds == asset_data@,
                j <= ds.len(),
                asset_by_id@ == assets,
                assets == drop_assets(ds),
                data_views(datas@) == datas_of_ext(ds, assets).take(j as int),
                forall|u: int, q: int|
                    0 <= u < ds.len() && 0 <= q < ds[u].assets@.len() ==> assets.contains_key(
                        #[trigger] asset_id_at(ds[u].assets@, q),
                    ),
            decreases ds.len() - j,
        {
            let d = InternalAssetDataForUses::from_ext(&asset_data[j], &asset_by_id);
            let ghost before = datas@;
            datas.push(d);
            proof {
                assert(datas@ == before.push(d));
                assert(data_views(datas@) =~= data_views(before).push(d@));
                assert(data_views(datas@) =~= datas_of_ext(ds, assets).take(j + 1));
            }
            j = j + 1;
        }
        proof {
            assert(datas_of_ext(ds, assets).take(ds.len() as int) =~= datas_of_ext(ds, assets));
        }
        let cost = get_total_costs_for_key(max_key_uses, &asset_by_id, &datas, block_timestamp)?;
        let mut next_key_id: u64 = 0;
        let mut key_info_by_token_id: StrMap<InternalKeyInfo> = StrMap::new();
        self.internal_add_keys_to_account(
            &mut next_key_id,
            &mut key_info_by_token_id,
            &drop_id,
            max_key_uses,
            &key_data,
        )?;
        let drop = InternalDrop {
            funder_id: predecessor.clone(),
            max_key_uses,
            asset_by_id,
            asset_data_for_uses: datas,
            key_info_by_token_id,
            next_key_id,
            config: drop_config,
        };
        proof {
            assert(drop@ == created_drop(predecessor@, drop_id@, key_data@, asset_data@, drop_config));
        }
        self.drop_by_id.insert(drop_id.clone(), drop);
        self.internal_add_drop_to_funder(predecessor, &drop_id);
        Ok(cost)
    }

    /// Add keys to an existing drop; the caller must be its funder or on its allowlist. Refused
    /// as `add_keys_error` describes, changing nothing. Returns what one key costs in assets.
    pub fn add_keys(
        &mut self,
        predecessor: &AccountId,
        drop_id: &DropId,
        key_data: Vec<ExtKeyData>,
        block_timestamp: u64,
    ) -> (r: Result<Balance, KeypomError>)
        ensures
            match add_keys_error(old(self)@, predecessor@, drop_id@, key_data@, block_timestamp) {
                Some(e) => r == Err::<Balance, KeypomError>(e) && final(self)@ == old(self)@,
                None => {
                    let d = old(self)@.drop_by_id[drop_id@];
                    &&& costs_result(
                        remaining_data_spec(d.asset_data_for_uses, d.max_key_uses as int),
                        d.asset_by_id,
                        block_timestamp,
                    ) matches Ok(c) && r == Ok::<Balance, KeypomError>(c as u128)
                    &&& final(self)@ == add_keys_state(old(self)@, drop_id@, key_data@)
                },
            },
    {
        self.assert_no_global_freeze(predecessor)?;
        let d = match self.drop_by_id.get(drop_id) {
            Some(d) => d,
            None => {
                return Err(KeypomError::DropNotFound);
            },
        };
        let n = key_data.len();
        if n == 0 || n > MAX_KEYS_PER_CALL {
            return Err(KeypomError::BadKeyCount);
        }
        let allowed = match &d.config {
            Some(c) => match &c.add_key_allowlist {
                Some(l) => d.funder_id == *predecessor || vec_contains_str(l, predecessor),
                None => d.funder_id == *predecessor,
            },
            None => d.funder_id == *predecessor,
        };
        if !allowed {
            return Err(KeypomError::NotFunder);
        }
        let cost = get_total_costs_for_key(d.max_key_uses, &d.asset_by_id, &d.asset_data_for_uses, block_timestamp)?;
        self.validate_keys(&key_data, d.next_key_id)?;
        let ghost s0 = self@;
        let mut drop = match self.drop_by_id.remove(drop_id) {
            Some(x) => x,
            None => {
                return Err(KeypomError::DropNotFound);
            },
        };
        let max = drop.max_key_uses;
        let res = self.internal_add_keys_to_account(
            &mut drop.next_key_id,
            &mut drop.key_info_by_token_id,
            drop_id,
            max,
            &key_data,
        );
        proof {
            assert(res is Ok);
        }
        self.drop_by_id.insert(drop_id.clone(), drop);
        proof {
            assert(self@.drop_by_id =~= add_keys_state(s0, drop_id@, key_data@).drop_by_id);
        }
        Ok(cost)
    }
}

} // verus!
