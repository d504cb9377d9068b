//! Identifiers, gas and asset constants, and the configuration types of drops and key uses.

use vstd::prelude::*;

verus! {

/// An account on the chain (validated text such as `alice.near`).
pub type AccountId = String;

/// A public key in its text form (`ed25519:...`).
pub type PublicKey = String;

/// Amounts of yoctoNEAR.
pub type Balance = u128;

/// Amounts of gas.
pub type Gas = u64;

/// Which specific use is something being acted on (the first use is 1).
pub type UseNumber = u32;

/// The ID of an asset such as fungible tokens, non-fungible tokens or function calls.
pub type AssetId = String;

/// The unique identifier of a drop.
pub type DropId = String;

/// Drop metadata: free text, most often JSON.
pub type DropMetadata = String;

/// ID of a key seen as a non-fungible token: `drop_id:key_nonce`.
pub type TokenId = String;

/// One teragas.
pub const TGAS: u64 = 1_000_000_000_000;

/// Base cost of spinning up a receipt for a cross contract call.
pub const MIN_BASE_GAS_FOR_RECEIPT_SPIN_UP: u64 = 5_000_000_000_000;

/// Maximum amount of gas a transaction can carry.
pub const MAX_GAS_ATTACHABLE: u64 = 300_000_000_000_000;

/// Gas for the computations of one receipt.
pub const MIN_GAS_FOR_RECEIPT_COMPUTATION: u64 = 5_000_000_000_000;

/// Gas attached when creating a new account.
pub const GAS_FOR_CREATE_ACCOUNT: u64 = 28_000_000_000_000;

/// Gas for the callback that resolves all asset claims of a use.
pub const MIN_GAS_FOR_RESOLVE_ASSET_CLAIM: u64 = 10_000_000_000_000;

/// Gas for the callback after account creation, without the asset promises.
pub const BASE_GAS_FOR_RESOLVE_ACCOUNT_CREATION: u64 = 20_000_000_000_000;

/// Gas for a `claim` call, without the asset promises.
pub const BASE_GAS_FOR_CLAIM: u64 = 30_000_000_000_000;

/// Gas for a `create_account_and_claim` call, without the asset promises.
pub const BASE_GAS_FOR_CREATE_ACC_AND_CLAIM: u64 = 63_000_000_000_000;

/// Gas to claim the null asset.
pub const GAS_FOR_NONE_ASSET: u64 = 400_000_000_000;

/// Gas to transfer $NEAR.
pub const GAS_FOR_NEAR_TRANSFER: u64 = 9_000_000_000_000;

/// Gas for the logic of a fungible token claim (two cross contract calls).
pub const GAS_FOR_FT_CLAIM_LOGIC: u64 = 12_000_000_000_000;

/// Gas for an `ft_transfer`.
pub const MIN_GAS_FOR_FT_TRANSFER: u64 = 5_000_000_000_000;

/// Gas for a `storage_deposit` on a fungible token contract.
pub const MIN_GAS_FOR_STORAGE_DEPOSIT: u64 = 5_000_000_000_000;

/// Gas for the logic of a non-fungible token claim (one cross contract call).
pub const GAS_FOR_NFT_CLAIM_LOGIC: u64 = 7_000_000_000_000;

/// Gas for an `nft_transfer`.
pub const MIN_GAS_FOR_NFT_TRANSFER: u64 = 4_000_000_000_000;

/// Gas for the callback logic after a non-fungible token claim.
pub const MIN_GAS_FOR_NFT_CALLBACK_LOGIC: u64 = 2_000_000_000_000;

/// Gas for the logic of a function call claim.
pub const GAS_FOR_FC_CLAIM_LOGIC: u64 = 2_000_000_000_000;

/// Most keys that one call may add to a drop.
pub const MAX_KEYS_PER_CALL: usize = 100;

/// Can a key be used to call `claim` or only `create_account_and_claim`?
#[allow(non_camel_case_types)]
#[derive(Clone, Copy, Debug, PartialEq, Eq, Structural)]
pub enum ClaimPermissions {
    claim,
    create_account_and_claim,
}

/// Time restrictions on the uses of a key. All timestamps are in nanoseconds since the epoch.
#[derive(Clone, Copy, Debug, PartialEq, Eq, Structural)]
pub struct TimeConfig {
    /// Block timestamp before which keys cannot be used.
    pub start: Option<u64>,
    /// Block timestamp after which keys cannot be used.
    pub end: Option<u64>,
    /// Time that must pass between two uses of a key.
    pub throttle: Option<u64>,
    /// Interval after `start` after which one more use becomes available.
    pub interval: Option<u64>,
}

/// Keypom arguments to inject into function call arguments: the field name under which each
/// value goes, or `None` to leave it out.
pub struct KeypomInjectedArgs {
    /// Field for the claiming account ID.
    pub account_id_field: Option<String>,
    /// Field for the drop ID.
    pub drop_id_field: Option<String>,
    /// Field for the key ID.
    pub key_id_field: Option<String>,
    /// Field for the funder ID.
    pub funder_id_field: Option<String>,
}

/// Configuration for a set of uses of a key.
pub struct UseConfig {
    /// Restrictions on when the key can be used.
    pub time: Option<TimeConfig>,
    /// Which claim method the key may call.
    pub permissions: Option<ClaimPermissions>,
    /// Keypom arguments to attach when creating an account.
    pub account_creation_keypom_args: Option<KeypomInjectedArgs>,
    /// Root account for new sub-accounts, overriding the contract's.
    pub root_account_id: Option<AccountId>,
}

/// Optional configuration of a whole drop.
pub struct DropConfig {
    /// Free-form metadata for the drop.
    pub metadata: Option<DropMetadata>,
    /// Accounts other than the funder that may add keys (a set).
    pub add_key_allowlist: Option<Vec<AccountId>>,
    /// Whether the drop is deleted when all its keys are used.
    pub delete_empty_drop: Option<bool>,
    /// Extra allowance given to each key for NFT operations.
    pub extra_allowance_per_key: Option<Balance>,
}

/// Copy an optional string.
pub fn clone_opt_str(a: &Option<String>) -> (r: Option<String>)
    ensures
        r == *a,
{
    match a {
        Some(s) => Some(s.clone()),
        None => None,
    }
}

impl KeypomInjectedArgs {
    /// A copy of the arguments.
    pub fn copy(&self) -> (r: Self)
        ensures
            r == *self,
    {
        KeypomInjectedArgs {
            account_id_field: clone_opt_str(&self.account_id_field),
            drop_id_field: clone_opt_str(&self.drop_id_field),
            key_id_field: clone_opt_str(&self.key_id_field),
            funder_id_field: clone_opt_str(&self.funder_id_field),
        }
    }
}

impl UseConfig {
    /// A copy of the configuration.
    pub fn copy(&self) -> (r: Self)
        ensures
            r == *self,
    {
        UseConfig {
            time: self.time,
            permissions: self.permissions,
            account_creation_keypom_args: match &self.account_creation_keypom_args {
                Some(a) => Some(a.copy()),
                None => None,
            },
            root_account_id: clone_opt_str(&self.root_account_id),
        }
    }
}

/// Copy an optional use configuration.
pub fn clone_opt_use_config(c: &Option<UseConfig>) -> (r: Option<UseConfig>)
    ensures
        r == *c,
{
    match c {
        Some(x) => Some(x.copy()),
        None => None,
    }
}

} // verus!

verus! {

/// Why a call to the contract is refused. A refused call changes nothing.
#[derive(Debug, PartialEq, Eq, Structural)]
pub enum KeypomError {
    /// The contract is frozen and the caller is not its owner.
    GlobalFreeze,
    /// The caller is not the contract owner.
    NotOwner,
    /// Drop IDs cannot contain a colon.
    DropIdHasColon,
    /// A drop with this ID exists already.
    DropExists,
    /// No drop has this ID.
    DropNotFound,
    /// Between one and a hundred keys must be given.
    BadKeyCount,
    /// Only the funder (or an allowlisted account) may do this.
    NotFunder,
    /// A time configuration is inconsistent or lies in the past.
    InvalidTimeConfig,
    /// A use needs more gas than a transaction can carry.
    GasExceedsLimit,
    /// An asset referenced by a use is not in the drop.
    AssetNotFound,
    /// The funder's balance does not cover the cost.
    InsufficientBalance,
    /// A public key is already registered with the contract.
    KeyAlreadyAdded,
    /// A password is not valid hex.
    InvalidHex,
    /// The password given does not match the key's.
    PasswordMismatch,
    /// The key's use needs a password and none was given.
    PasswordExpected,
    /// The key may only be used through the other claim method.
    WrongClaimMethod,
    /// No key is registered under this public key or token ID.
    KeyNotFound,
    /// The drop has no allowlist.
    NoAllowlist,
    /// Not enough gas is attached.
    NotEnoughGas,
    /// An amount does not fit its integer type.
    Overflow,
    /// The sender is neither the owner of the key nor approved for it.
    Unauthorized,
    /// The approval ID given is not the account's.
    ApprovalIdMismatch,
    /// The account has no funder record.
    UserNotFound,
    /// The drop still holds assets that can be withdrawn.
    AssetsNotEmpty,
    /// A function call asset is not acceptable.
    InvalidFunctionCall,
    /// The drop holds no such token.
    TokenNotFound,
    /// The metadata is not valid JSON.
    InvalidMetadata,
    /// A token ID is malformed.
    InvalidTokenId,
    /// The results reported for a use's claims do not match its assets.
    PromiseResultsMismatch,
    /// A signature does not verify under the key it names.
    InvalidSignature,
}

/// Whether a time configuration is consistent and does not lie in the past at `now`.
pub open spec fn time_config_valid(c: TimeConfig, now: u64) -> bool {
    &&& !(c.interval is Some && c.start is None)
    &&& (c.start matches Some(s) ==> s >= now)
    &&& (c.end matches Some(e) ==> e >= now)
    &&& ((c.start is Some && c.end is Some) ==> c.start.unwrap() < c.end.unwrap())
}

/// Check a time configuration against the current block timestamp.
pub fn assert_valid_time_config(config: &TimeConfig, block_timestamp: u64) -> (b: bool)
    ensures
        b == time_config_valid(*config, block_timestamp),
{
    if config.interval.is_some() && config.start.is_none() {
        return false;
    }
    if let Some(s) = config.start {
        if s < block_timestamp {
            return false;
        }
    }
    if let Some(e) = config.end {
        if e < block_timestamp {
            return false;
        }
    }
    match (config.start, config.end) {
        (Some(s), Some(e)) => s < e,
        _ => true,
    }
}

} // verus!
