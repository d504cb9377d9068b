//! Claiming a key's use: the checks before a claim, the decrement of the key's uses, and the
//! transfers that the assets of the use ask for.

use vstd::prelude::*;
use crate::assets::{asset_gas, AssetClaim, AssetView, InternalAsset};
use crate::external::{hex_decode, hex_decoded, sha256, sha256_digest};
use crate::state::{
    pw_for_use, pw_views, DropView, InternalDrop, InternalKeyInfo, KeyInfoView, Keypom, KeypomView,
    PasswordForUse,
};
use crate::token_id::{has_colon, parse_token_id, parse_token_id_spec};
use crate::types::{
    AccountId, ClaimPermissions, DropId, Gas, KeypomError, KeypomInjectedArgs, PublicKey, TokenId,
    UseConfig, UseNumber, BASE_GAS_FOR_CLAIM, BASE_GAS_FOR_CREATE_ACC_AND_CLAIM,
    BASE_GAS_FOR_RESOLVE_ACCOUNT_CREATION,
};
use crate::creation::{asset_gas_saturating, lemma_asset_gas_nonneg, metadata_gas, sat_gas};
use crate::strmap::StrMap;
use crate::uses::{
    data_for_use_spec, get_asset_data_for_specific_use, metadata_views, AssetDataView, AssetMetadata,
    MetadataView,
};

verus! {

/// The use of a key that comes next: the first use is 1.
pub fn get_key_cur_use(drop: &InternalDrop, key_info: &InternalKeyInfo) -> (r: UseNumber)
    requires
        key_info.remaining_uses <= drop.max_key_uses,
        drop.max_key_uses - key_info.remaining_uses + 1 <= u32::MAX,
    ensures
        r == drop.max_key_uses - key_info.remaining_uses + 1,
{
    drop.max_key_uses - key_info.remaining_uses + 1
}

/// Whether two byte strings are equal.
pub(crate) fn bytes_eq(a: &Vec<u8>, b: &Vec<u8>) -> (r: bool)
    ensures
        r == (a@ == b@),
{
    if a.len() != b.len() {
        return false;
    }
    let mut i: usize = 0;
    while i < a.len()
        invariant
            a@.len() == b@.len(),
            i <= a@.len(),
            forall|j: int| 0 <= j < i ==> a@[j] == b@[j],
        decreases a@.len() - i,
    {
        if a[i] != b[i] {
            return false;
        }
        i = i + 1;
    }
    proof {
        assert(a@ =~= b@);
    }
    true
}

/// What a password check reports: nothing when the hex-decoded password hashes to the expected
/// digest, `PasswordExpected` when none was given or it is not hex, `PasswordMismatch` otherwise.
pub open spec fn password_error(user_password: Option<Seq<char>>, expected: Seq<u8>) -> Option<KeypomError> {
    match user_password {
        None => Some(KeypomError::PasswordExpected),
        Some(p) => match hex_decoded(p) {
            None => Some(KeypomError::PasswordExpected),
            Some(b) => if sha256_digest(b) == expected {
                None
            } else {
                Some(KeypomError::PasswordMismatch)
            },
        },
    }
}

/// Check the password a claimer gives against the stored digest.
pub fn assert_key_password(user_password: &Option<String>, expected_password: &Vec<u8>) -> (r: Result<
    (),
    KeypomError,
>)
    ensures
        match password_error(crate::state::opt_view(*user_password), expected_password@) {
            Some(e) => r == Err::<(), KeypomError>(e),
            None => r is Ok,
        },
{
    let decoded = match user_password {
        Some(p) => hex_decode(p.as_str()),
        None => None,
    };
    match decoded {
        None => Err(KeypomError::PasswordExpected),
        Some(b) => {
            let hashed = sha256(b.as_slice());
            if bytes_eq(&hashed, expected_password) {
                Ok(())
            } else {
                Err(KeypomError::PasswordMismatch)
            }
        },
    }
}

/// The stored digest for a use, if any.
pub(crate) fn find_password(v: &Vec<PasswordForUse>, u: u64) -> (r: Option<&Vec<u8>>)
    ensures
        match pw_for_use(pw_views(v@), u) {
            Some(p) => r matches Some(x) && x@ == p,
            None => r is None,
        },
{
    let ghost all = pw_views(v@);
    let mut i: usize = 0;
    proof {
        assert(all.skip(0) =~= all);
    }
    while i < v.len()
        invariant
            all == pw_views(v@),
            i <= v@.len(),
            pw_for_use(all.skip(i as int), u) == pw_for_use(all, u),
        decreases v@.len() - i,
    {
        proof {
            assert(all.skip(i as int)[0] == v@[i as int]@);
            assert(all.skip(i as int).drop_first() =~= all.skip(i + 1));
        }
        if v[i].use_number == u {
            return Some(&v[i].pw);
        }
        i = i + 1;
    }
    proof {
        assert(all.skip(i as int) =~= Seq::<crate::state::PasswordView>::empty());
    }
    None
}

/// The claim method a use allows, if it restricts it.
pub open spec fn use_permissions(config: Option<UseConfig>) -> Option<ClaimPermissions> {
    match config {
        Some(c) => c.permissions,
        None => None,
    }
}

/// What the checks before a claim report: the wrong claim method for the use's permissions, then
/// the key's password for the use, if it has one.
pub open spec fn pre_claim_error(
    k: KeyInfoView,
    config: Option<UseConfig>,
    user_password: Option<Seq<char>>,
    cur_key_use: UseNumber,
    creating_account: bool,
) -> Option<KeypomError> {
    let perm_ok = match use_permissions(config) {
        Some(ClaimPermissions::claim) => !creating_account,
        Some(ClaimPermissions::create_account_and_claim) => creating_account,
        None => true,
    };
    if !perm_ok {
        Some(KeypomError::WrongClaimMethod)
    } else {
        match k.pw_by_use {
            Some(pws) => match pw_for_use(pws, cur_key_use as u64) {
                Some(p) => password_error(user_password, p),
                None => None,
            },
            None => None,
        }
    }
}

/// The checks before a claim: the method must be one the use allows, and the password the one
/// stored for the use.
pub fn assert_pre_claim_conditions(
    key_info: &InternalKeyInfo,
    use_config: &Option<UseConfig>,
    user_password: &Option<String>,
    cur_key_use: &UseNumber,
    creating_account: bool,
) -> (r: Result<(), KeypomError>)
    ensures
        match pre_claim_error(
            key_info@,
            *use_config,
            crate::state::opt_view(*user_password),
            *cur_key_use,
            creating_account,
        ) {
            Some(e) => r == Err::<(), KeypomError>(e),
            None => r is Ok,
        },
{
    let perm = match use_config {
        Some(c) => c.permissions,
        None => None,
    };
    match perm {
        Some(ClaimPermissions::claim) => {
            if creating_account {
                return Err(KeypomError::WrongClaimMethod);
            }
        },
        Some(ClaimPermissions::create_account_and_claim) => {
            if !creating_account {
                return Err(KeypomError::WrongClaimMethod);
            }
        },
        None => {},
    }
    if let Some(pws) = &key_info.pw_by_use {
        if let Some(pw) = find_password(pws, *cur_key_use as u64) {
            return assert_key_password(user_password, pw);
        }
    }
    Ok(())
}

/// What a claim hands on to the transfers and the account creation.
pub struct BeforeClaimData {
    /// The token ID of the key being claimed.
    pub token_id: TokenId,
    /// The drop of the key.
    pub drop_id: DropId,
    /// The nonce of the key within its drop.
    pub key_id: u64,
    /// The funder of the drop.
    pub funder_id: AccountId,
    /// Gas the assets of the use need.
    pub required_asset_gas: Gas,
    /// Account under which a new account is created.
    pub root_account_id: AccountId,
    /// Keypom arguments to attach to the account creation.
    pub account_creation_keypom_args: Option<KeypomInjectedArgs>,
    /// Whether this was the key's last use, so that its access key is deleted.
    pub key_deleted: bool,
}

/// The token ID a public key is registered under.
pub open spec fn token_of(s: KeypomView, pk: Seq<char>) -> Seq<char> {
    s.token_id_by_pk[pk]
}

/// The drop ID inside a token ID.
pub open spec fn drop_of(t: Seq<char>) -> Seq<char> {
    parse_token_id_spec(t).unwrap().0
}

/// Whether a token ID names a drop and a key of the state, giving the key's drop, its stored
/// record and uses that are consistent.
pub open spec fn key_found(s: KeypomView, t: Seq<char>) -> bool {
    &&& t.contains(':')
    &&& parse_token_id_spec(t) is Some
    &&& s.drop_by_id.contains_key(drop_of(t))
    &&& s.drop_by_id[drop_of(t)].key_info_by_token_id.contains_key(t)
}

/// The first refusal met when looking a token ID up: a malformed ID, then a missing drop, then a
/// missing key.
pub open spec fn lookup_error(s: KeypomView, t: Seq<char>) -> Option<KeypomError> {
    if !t.contains(':') || parse_token_id_spec(t) is None {
        Some(KeypomError::InvalidTokenId)
    } else if !s.drop_by_id.contains_key(drop_of(t)) {
        Some(KeypomError::DropNotFound)
    } else if !s.drop_by_id[drop_of(t)].key_info_by_token_id.contains_key(t) {
        Some(KeypomError::KeyNotFound)
    } else {
        None
    }
}

/// The key record behind a token ID.
pub open spec fn key_of(s: KeypomView, t: Seq<char>) -> KeyInfoView {
    s.drop_by_id[drop_of(t)].key_info_by_token_id[t]
}

/// The use a key is at, given its remaining uses.
pub open spec fn cur_use(d: DropView, k: KeyInfoView) -> int {
    d.max_key_uses - k.remaining_uses + 1
}

/// Whether every asset a use names is stored in the drop.
pub open spec fn metadata_assets_found(ms: Seq<MetadataView>, assets: Map<Seq<char>, AssetView>) -> bool {
    forall|i: int| 0 <= i < ms.len() ==> assets.contains_key(#[trigger] ms[i].asset_id)
}

/// The gas the assets of a key's current use need: the sum of the gas of each asset (as a `u64`,
/// `u64::MAX` where the sum does not fit).
pub open spec fn use_gas(d: DropView, k: KeyInfoView) -> u64 {
    sat_gas(metadata_gas(data_for_use_spec(d.asset_data_for_uses, cur_use(d, k)).assets_metadata, d.asset_by_id))
}

/// The gas the assets of a use need, summed over its assets; `None` where one of them is not
/// stored.
fn use_asset_gas(ms: &Vec<AssetMetadata>, asset_by_id: &StrMap<InternalAsset>) -> (r: Option<u64>)
    ensures
        match r {
            Some(g) => metadata_assets_found(metadata_views(ms@), asset_by_id@) && g == sat_gas(
                metadata_gas(metadata_views(ms@), asset_by_id@),
            ),
            None => !metadata_assets_found(metadata_views(ms@), asset_by_id@),
        },
{
    let ghost full = metadata_views(ms@);
    let mut gas: u64 = 0;
    let mut i: usize = 0;
    proof {
        assert(full.take(0) =~= Seq::<MetadataView>::empty());
    }
    while i < ms.len()
        invariant
            full == metadata_views(ms@),
            i <= ms@.len(),
            full.len() == ms@.len(),
            gas == sat_gas(metadata_gas(full.take(i as int), asset_by_id@)),
            metadata_gas(full.take(i as int), asset_by_id@) >= 0,
            metadata_assets_found(full.take(i as int), asset_by_id@),
        decreases ms@.len() - i,
    {
        let id = &ms[i].asset_id;
        proof {
            assert(full[i as int].asset_id == id@);
            assert(full.take(i + 1).drop_last() =~= full.take(i as int));
            assert(full.take(i + 1).last() == full[i as int]);
        }
        let g = match asset_by_id.get(id) {
            Some(a) => asset_gas_saturating(a),
            None => {
                proof {
                    assert(!asset_by_id@.contains_key(full[i as int].asset_id));
                }
                return None;
            },
        };
        proof {
            lemma_asset_gas_nonneg(asset_by_id@[id@]);
            assert(metadata_gas(full.take(i + 1), asset_by_id@) == metadata_gas(full.take(i as int), asset_by_id@)
                + asset_gas(asset_by_id@[id@]));
            assert forall|j: int| 0 <= j < i + 1 implies asset_by_id@.contains_key(
                #[trigger] full.take(i + 1)[j].asset_id,
            ) by {
                if j < i {
                    assert(full.take(i + 1)[j] == full.take(i as int)[j]);
                }
            }
        }
        gas = gas.saturating_add(g);
        i = i + 1;
    }
    proof {
        assert(full.take(ms@.len() as int) =~= full);
    }
    Some(gas)
}

/// The first refusal met before claiming with a public key, if any.
pub open spec fn before_claim_error(
    s: KeypomView,
    pk: Seq<char>,
    creating_account: bool,
    user_password: Option<Seq<char>>,
    prepaid_gas: u64,
    base_gas: u64,
) -> Option<KeypomError> {
    if !s.token_id_by_pk.contains_key(pk) {
        Some(KeypomError::KeyNotFound)
    } else {
        let t = token_of(s, pk);
        match lookup_error(s, t) {
            Some(e) => Some(e),
            None => {
                let d = s.drop_by_id[drop_of(t)];
                let k = key_of(s, t);
                if k.remaining_uses == 0 || k.remaining_uses > d.max_key_uses {
                    Some(KeypomError::KeyNotFound)
                } else {
                    let data = data_for_use_spec(d.asset_data_for_uses, cur_use(d, k));
                    match pre_claim_error(k, data.config, user_password, cur_use(d, k) as u32, creating_account) {
                        Some(e) => Some(e),
                        None => if !metadata_assets_found(data.assets_metadata, d.asset_by_id) {
                            Some(KeypomError::AssetNotFound)
                        } else if prepaid_gas < base_gas + use_gas(d, k) {
                            Some(KeypomError::NotEnoughGas)
                        } else {
                            None
                        },
                    }
                }
            },
        }
    }
}

/// The state after a claim's checks pass: the key has one use less, and when none is left its
/// public key is no longer registered.
pub open spec fn before_claim_state(s: KeypomView, pk: Seq<char>) -> KeypomView {
    let t = token_of(s, pk);
    let d = s.drop_by_id[drop_of(t)];
    let k = key_of(s, t);
    let k2 = KeyInfoView { remaining_uses: (k.remaining_uses - 1) as u32, ..k };
    KeypomView {
        drop_by_id: s.drop_by_id.insert(
            drop_of(t),
            DropView { key_info_by_token_id: d.key_info_by_token_id.insert(t, k2), ..d },
        ),
        token_id_by_pk: if k.remaining_uses == 1 {
            s.token_id_by_pk.remove(pk)
        } else {
            s.token_id_by_pk
        },
        ..s
    }
}

/// The root for new accounts: the use's, or the contract's.
pub open spec fn claim_root(config: Option<UseConfig>, root: Seq<char>) -> Seq<char> {
    match config {
        Some(c) => match c.root_account_id {
            Some(r) => r@,
            None => root,
        },
        None => root,
    }
}

/// The Keypom arguments a use attaches to account creation.
pub open spec fn claim_keypom_args(config: Option<UseConfig>) -> Option<KeypomInjectedArgs> {
    match config {
        Some(c) => c.account_creation_keypom_args,
        None => None,
    }
}

/// What a claim's checks hand on.
pub open spec fn before_claim_data_ok(s: KeypomView, pk: Seq<char>, r: BeforeClaimData) -> bool {
    let t = token_of(s, pk);
    let d = s.drop_by_id[drop_of(t)];
    let k = key_of(s, t);
    let data = data_for_use_spec(d.asset_data_for_uses, cur_use(d, k));
    &&& r.token_id@ == t
    &&& r.drop_id@ == drop_of(t)
    &&& r.key_id == parse_token_id_spec(t).unwrap().1
    &&& r.funder_id@ == d.funder_id
    &&& r.required_asset_gas == use_gas(d, k)
    &&& r.root_account_id@ == claim_root(data.config, s.root_account)
    &&& r.account_creation_keypom_args == claim_keypom_args(data.config)
    &&& r.key_deleted == (k.remaining_uses == 1)
}

impl Keypom {
    /// The checks before claiming with the signer's key, then the decrement of its uses. Refused
    /// as `before_claim_error` describes, changing nothing.
    pub fn before_claim_logic(
        &mut self,
        signer_pk: &PublicKey,
        creating_account: bool,
        password: Option<String>,
        prepaid_gas: Gas,
        base_gas: Gas,
    ) -> (r: Result<BeforeClaimData, KeypomError>)
        ensures
            match before_claim_error(
                old(self)@,
                signer_pk@,
                creating_account,
                crate::state::opt_view(password),
                prepaid_gas,
                base_gas,
            ) {
                Some(e) => r matches Err(x) && x == e && final(self)@ == old(self)@,
                None => r matches Ok(data) && before_claim_data_ok(old(self)@, signer_pk@, data)
                    && final(self)@ == before_claim_state(old(self)@, signer_pk@),
            },
    {
        let token_id = match self.token_id_by_pk.get(signer_pk) {
            Some(t) => t.clone(),
            None => {
                return Err(KeypomError::KeyNotFound);
            },
        };
        if !has_colon(&token_id) {
            return Err(KeypomError::InvalidTokenId);
        }
        let (drop_id, key_id) = match parse_token_id(&token_id) {
            Ok(p) => p,
            Err(_) => {
                return Err(KeypomError::InvalidTokenId);
            },
        };
        let drop = match self.drop_by_id.get(&drop_id) {
            Some(d) => d,
            None => {
                return Err(KeypomError::DropNotFound);
            },
        };
        let key_info = match drop.key_info_by_token_id.get(&token_id) {
            Some(k) => k,
            None => {
                return Err(KeypomError::KeyNotFound);
            },
        };
        if key_info.remaining_uses == 0 || key_info.remaining_uses > drop.max_key_uses {
            return Err(KeypomError::KeyNotFound);
        }
        let cur_key_use = get_key_cur_use(drop, key_info);
        let data = get_asset_data_for_specific_use(&drop.asset_data_for_uses, &cur_key_use);
        assert_pre_claim_conditions(key_info, &data.config, &password, &cur_key_use, creating_account)?;
        let required_asset_gas = match use_asset_gas(&data.assets_metadata, &drop.asset_by_id) {
            Some(g) => g,
            None => {
                return Err(KeypomError::AssetNotFound);
            },
        };
        if (prepaid_gas as u128) < (base_gas as u128) + (required_asset_gas as u128) {
            return Err(KeypomError::NotEnoughGas);
        }
        let funder_id = drop.funder_id.clone();
        let root_account_id = match &data.config {
            Some(c) => match &c.root_account_id {
                Some(r) => r.clone(),
                None => self.root_account.clone(),
            },
            None => self.root_account.clone(),
        };
        let account_creation_keypom_args = match &data.config {
            Some(c) => match &c.account_creation_keypom_args {
                Some(a) => Some(a.copy()),
                None => None,
            },
            None => None,
        };
        let key_deleted = key_info.remaining_uses == 1;
        let ghost s0 = self@;
        let mut drop = match self.drop_by_id.remove(&drop_id) {
            Some(d) => d,
            None => {
                return Err(KeypomError::DropNotFound);
            },
        };
        let mut key = match drop.key_info_by_token_id.remove(&token_id) {
            Some(k) => k,
            None => {
                return Err(KeypomError::KeyNotFound);
            },
        };
        let ghost d0 = s0.drop_by_id[drop_id@];
        let ghost k0 = d0.key_info_by_token_id[token_id@];
        proof {
            assert(token_of(s0, signer_pk@) == token_id@);
            assert(drop_of(token_id@) == drop_id@);
            assert(key@ == k0);
        }
        key.remaining_uses = key.remaining_uses - 1;
        if key.remaining_uses == 0 {
            self.token_id_by_pk.remove(signer_pk);
        }
        let ghost k2 = key@;
        drop.key_info_by_token_id.insert(token_id.clone(), key);
        proof {
            assert(k2 == (KeyInfoView { remaining_uses: (k0.remaining_uses - 1) as u32, ..k0 }));
            assert(drop.key_info_by_token_id@ =~= d0.key_info_by_token_id.insert(token_id@, k2));
            assert(drop@ == (DropView { key_info_by_token_id: d0.key_info_by_token_id.insert(token_id@, k2), ..d0 }));
        }
        self.drop_by_id.insert(drop_id.clone(), drop);
        proof {
            assert(self@.drop_by_id =~= before_claim_state(s0, signer_pk@).drop_by_id);
            assert(self@.token_id_by_pk =~= before_claim_state(s0, signer_pk@).token_id_by_pk);
        }
        Ok(
            BeforeClaimData {
                token_id,
                drop_id,
                key_id,
                funder_id,
                required_asset_gas,
                root_account_id,
                account_creation_keypom_args,
                key_deleted,
            },
        )
    }

    /// Claim a use of the signer's key for an existing account: the contract must not be frozen
    /// and enough gas must come with the call. The transfers follow with `internal_claim_assets`.
    pub fn claim(
        &mut self,
        predecessor: &AccountId,
        signer_pk: &PublicKey,
        password: Option<String>,
        prepaid_gas: Gas,
    ) -> (r: Result<BeforeClaimData, KeypomError>)
        ensures
            (predecessor@ != old(self)@.contract_owner_id && old(self)@.global_freeze) ==> (r matches Err(x)
                && x == KeypomError::GlobalFreeze && final(self)@ == old(self)@),
            !(predecessor@ != old(self)@.contract_owner_id && old(self)@.global_freeze) ==> (match before_claim_error(
                old(self)@,
                signer_pk@,
                false,
                crate::state::opt_view(password),
                prepaid_gas,
                BASE_GAS_FOR_CLAIM,
            ) {
                Some(e) => r matches Err(x) && x == e && final(self)@ == old(self)@,
                None => r matches Ok(data) && before_claim_data_ok(old(self)@, signer_pk@, data)
                    && final(self)@ == before_claim_state(old(self)@, signer_pk@),
            }),
    {
        self.assert_no_global_freeze(predecessor)?;
        self.before_claim_logic(signer_pk, false, password, prepaid_gas, BASE_GAS_FOR_CLAIM)
    }

    /// Claim a use of the signer's key for a new account: as `claim`, with the gas for account
    /// creation. Also returns the gas for the callback after the account is created.
    pub fn create_account_and_claim(
        &mut self,
        predecessor: &AccountId,
        signer_pk: &PublicKey,
        password: Option<String>,
        prepaid_gas: Gas,
    ) -> (r: Result<(BeforeClaimData, Gas), KeypomError>)
        ensures
            (predecessor@ != old(self)@.contract_owner_id && old(self)@.global_freeze) ==> (r matches Err(x)
                && x == KeypomError::GlobalFreeze && final(self)@ == old(self)@),
            !(predecessor@ != old(self)@.contract_owner_id && old(self)@.global_freeze) ==> (match before_claim_error(
                old(self)@,
                signer_pk@,
                true,
                crate::state::opt_view(password),
                prepaid_gas,
                BASE_GAS_FOR_CREATE_ACC_AND_CLAIM,
            ) {
                Some(e) => r matches Err(x) && x == e && final(self)@ == old(self)@,
                None => r matches Ok((data, g)) && before_claim_data_ok(old(self)@, signer_pk@, data)
                    && g == BASE_GAS_FOR_RESOLVE_ACCOUNT_CREATION + data.required_asset_gas
                    && final(self)@ == before_claim_state(old(self)@, signer_pk@),
            }),
    {
        self.assert_no_global_freeze(predecessor)?;
        let data = self.before_claim_logic(signer_pk, true, password, prepaid_gas, BASE_GAS_FOR_CREATE_ACC_AND_CLAIM)?;
        let gas_for_callback = BASE_GAS_FOR_RESOLVE_ACCOUNT_CREATION + data.required_asset_gas;
        Ok((data, gas_for_callback))
    }
}

/// A claim takes exactly one use of the key, and its public key stays registered exactly while
/// uses remain; nothing else about the key or other keys changes.
pub proof fn lemma_claim_takes_one_use(s: KeypomView, pk: Seq<char>)
    requires
        s.token_id_by_pk.contains_key(pk),
        key_found(s, token_of(s, pk)),
        key_of(s, token_of(s, pk)).remaining_uses >= 1,
    ensures
        ({
            let t = token_of(s, pk);
            let s2 = before_claim_state(s, pk);
            &&& s2.drop_by_id[drop_of(t)].key_info_by_token_id[t].remaining_uses == key_of(s, t).remaining_uses - 1
            &&& s2.token_id_by_pk.contains_key(pk) <==> s2.drop_by_id[drop_of(t)].key_info_by_token_id[t].remaining_uses > 0
            &&& forall|q: Seq<char>| q != pk ==> s2.token_id_by_pk.contains_key(q) == s.token_id_by_pk.contains_key(q)
            &&& forall|u: Seq<char>| #![auto] u != t ==> s2.drop_by_id[drop_of(t)].key_info_by_token_id.contains_key(u)
                == s.drop_by_id[drop_of(t)].key_info_by_token_id.contains_key(u)
        }),
{
}

} // verus!
