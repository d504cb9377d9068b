//! The contract's state: drops, keys, funders and fees, with the funder balance operations and
//! the owner's settings.

use vstd::prelude::*;
use crate::assets::{AssetView, InternalAsset};
use crate::strmap::StrMap;
use crate::types::{
    AccountId, Balance, DropConfig, DropId, KeypomError, PublicKey, TokenId, UseNumber,
};
use crate::uses::{data_views, AssetDataView, InternalAssetDataForUses};
use crate::external::{is_valid_json, json_parses};

verus! {

/// Fees the contract charges.
#[derive(Clone, Copy, Debug, PartialEq, Eq, Structural)]
pub struct KeypomFees {
    /// Charged for every drop created.
    pub per_drop: u128,
    /// Charged for every key added.
    pub per_key: u128,
}

impl View for KeypomFees {
    type V = KeypomFees;

    open spec fn view(&self) -> KeypomFees {
        *self
    }
}

/// The text views of an optional string.
pub open spec fn opt_view(o: Option<String>) -> Option<Seq<char>> {
    match o {
        Some(s) => Some(s@),
        None => None,
    }
}

/// What the contract keeps for a funder: free-form metadata and a prepaid balance.
pub struct FunderInfo {
    /// Metadata of the funder (JSON text).
    pub metadata: Option<String>,
    /// $NEAR prepaid to cover drop costs.
    pub balance: Balance,
}

/// View of a funder's record.
pub struct FunderView {
    pub metadata: Option<Seq<char>>,
    pub balance: Balance,
}

impl View for FunderInfo {
    type V = FunderView;

    open spec fn view(&self) -> FunderView {
        FunderView { metadata: opt_view(self.metadata), balance: self.balance }
    }
}

/// A stored password for one use of a key (the hash of what the claimer must present).
pub struct PasswordForUse {
    /// The use the password guards.
    pub use_number: u64,
    /// The expected SHA-256 digest.
    pub pw: Vec<u8>,
}

/// View of a stored password.
pub struct PasswordView {
    pub use_number: u64,
    pub pw: Seq<u8>,
}

impl View for PasswordForUse {
    type V = PasswordView;

    open spec fn view(&self) -> PasswordView {
        PasswordView { use_number: self.use_number, pw: self.pw@ }
    }
}

/// Views of a list of passwords.
pub open spec fn pw_views(s: Seq<PasswordForUse>) -> Seq<PasswordView> {
    s.map_values(|p: PasswordForUse| p@)
}

/// The password stored for a use: the first entry for that use.
pub open spec fn pw_for_use(s: Seq<PasswordView>, u: u64) -> Option<Seq<u8>>
    decreases s.len(),
{
    if s.len() == 0 {
        None
    } else if s[0].use_number == u {
        Some(s[0].pw)
    } else {
        pw_for_use(s.drop_first(), u)
    }
}

/// What the contract keeps for each key.
pub struct InternalKeyInfo {
    /// The public key currently mapped to this key.
    pub pub_key: PublicKey,
    /// Uses left; the key is deleted when none is left.
    pub remaining_uses: UseNumber,
    /// Owner of the key seen as a non-fungible token, if any.
    pub owner_id: Option<AccountId>,
    /// When the key was last used.
    pub last_claimed: u64,
    /// Metadata of the key.
    pub metadata: Option<String>,
    /// Passwords by use.
    pub pw_by_use: Option<Vec<PasswordForUse>>,
    /// Accounts approved to transfer the key, with their approval IDs.
    pub approved_account_ids: StrMap<u64>,
    /// The next approval ID to give out.
    pub next_approval_id: u64,
}

/// View of a key.
pub struct KeyInfoView {
    pub pub_key: Seq<char>,
    pub remaining_uses: UseNumber,
    pub owner_id: Option<Seq<char>>,
    pub last_claimed: u64,
    pub metadata: Option<Seq<char>>,
    pub pw_by_use: Option<Seq<PasswordView>>,
    pub approved_account_ids: Map<Seq<char>, u64>,
    pub next_approval_id: u64,
}

impl View for InternalKeyInfo {
    type V = KeyInfoView;

    open spec fn view(&self) -> KeyInfoView {
        KeyInfoView {
            pub_key: self.pub_key@,
            remaining_uses: self.remaining_uses,
            owner_id: opt_view(self.owner_id),
            last_claimed: self.last_claimed,
            metadata: opt_view(self.metadata),
            pw_by_use: match self.pw_by_use {
                Some(v) => Some(pw_views(v@)),
                None => None,
            },
            approved_account_ids: self.approved_account_ids@,
            next_approval_id: self.next_approval_id,
        }
    }
}

/// A drop as the contract keeps it.
pub struct InternalDrop {
    /// The account that funded the drop and owns its rights.
    pub funder_id: AccountId,
    /// Uses every key of the drop starts with.
    pub max_key_uses: UseNumber,
    /// The assets of the drop by ID.
    pub asset_by_id: StrMap<InternalAsset>,
    /// The assets of each set of uses, in order of use.
    pub asset_data_for_uses: Vec<InternalAssetDataForUses>,
    /// The keys of the drop by token ID.
    pub key_info_by_token_id: StrMap<InternalKeyInfo>,
    /// The nonce the next key gets.
    pub next_key_id: u64,
    /// Configuration of the drop.
    pub config: Option<DropConfig>,
}

/// View of a drop.
pub struct DropView {
    pub funder_id: Seq<char>,
    pub max_key_uses: UseNumber,
    pub asset_by_id: Map<Seq<char>, AssetView>,
    pub asset_data_for_uses: Seq<AssetDataView>,
    pub key_info_by_token_id: Map<Seq<char>, KeyInfoView>,
    pub next_key_id: u64,
    pub config: Option<DropConfig>,
}

impl View for InternalDrop {
    type V = DropView;

    open spec fn view(&self) -> DropView {
        DropView {
            funder_id: self.funder_id@,
            max_key_uses: self.max_key_uses,
            asset_by_id: self.asset_by_id@,
            asset_data_for_uses: data_views(self.asset_data_for_uses@),
            key_info_by_token_id: self.key_info_by_token_id@,
            next_key_id: self.next_key_id,
            config: self.config,
        }
    }
}

/// The whole contract state.
pub struct Keypom {
    /// Owner of the contract, who sets its configuration.
    pub contract_owner_id: AccountId,
    /// Whether drop creation and key additions are frozen for everyone but the owner.
    pub global_freeze: bool,
    /// Fees charged for drops and keys.
    pub fee_structure: KeypomFees,
    /// Fees collected and not yet withdrawn.
    pub fees_collected: u128,
    /// Fees for specific users, overriding `fee_structure`.
    pub fees_per_user: StrMap<KeypomFees>,
    /// The drops by ID.
    pub drop_by_id: StrMap<InternalDrop>,
    /// The set of drop IDs of each funder.
    pub drop_ids_by_funder: StrMap<StrMap<()>>,
    /// The token ID of every registered public key.
    pub token_id_by_pk: StrMap<TokenId>,
    /// Account under which new accounts are created.
    pub root_account: AccountId,
    /// The set of token IDs each account owns.
    pub tokens_per_owner: StrMap<StrMap<()>>,
    /// Funder records by account.
    pub funder_info_by_id: StrMap<FunderInfo>,
}

/// View of the contract state.
pub struct KeypomView {
    pub contract_owner_id: Seq<char>,
    pub global_freeze: bool,
    pub fee_structure: KeypomFees,
    pub fees_collected: u128,
    pub fees_per_user: Map<Seq<char>, KeypomFees>,
    pub drop_by_id: Map<Seq<char>, DropView>,
    pub drop_ids_by_funder: Map<Seq<char>, Map<Seq<char>, ()>>,
    pub token_id_by_pk: Map<Seq<char>, Seq<char>>,
    pub root_account: Seq<char>,
    pub tokens_per_owner: Map<Seq<char>, Map<Seq<char>, ()>>,
    pub funder_info_by_id: Map<Seq<char>, FunderView>,
}

impl View for Keypom {
    type V = KeypomView;

    open spec fn view(&self) -> KeypomView {
        KeypomView {
            contract_owner_id: self.contract_owner_id@,
            global_freeze: self.global_freeze,
            fee_structure: self.fee_structure,
            fees_collected: self.fees_collected,
            fees_per_user: self.fees_per_user@,
            drop_by_id: self.drop_by_id@,
            drop_ids_by_funder: self.drop_ids_by_funder@,
            token_id_by_pk: self.token_id_by_pk@,
            root_account: self.root_account@,
            tokens_per_owner: self.tokens_per_owner@,
            funder_info_by_id: self.funder_info_by_id@,
        }
    }
}

/// The balance of an account (zero without a record).
pub open spec fn balance_in(m: Map<Seq<char>, FunderView>, a: Seq<char>) -> int {
    if m.contains_key(a) {
        m[a].balance as int
    } else {
        0
    }
}

/// The record of an account, or an empty one.
pub open spec fn funder_or_new(m: Map<Seq<char>, FunderView>, a: Seq<char>) -> FunderView {
    if m.contains_key(a) {
        m[a]
    } else {
        FunderView { metadata: None, balance: 0 }
    }
}

/// The records with an account's balance set.
pub open spec fn with_balance(m: Map<Seq<char>, FunderView>, a: Seq<char>, b: u128) -> Map<
    Seq<char>,
    FunderView,
> {
    m.insert(a, FunderView { balance: b, ..funder_or_new(m, a) })
}

/// The balance after adding or taking an amount, if it stays within `0..=u128::MAX`.
pub open spec fn balance_change(bal: int, amount: int, decrement: bool) -> Option<u128> {
    if decrement {
        if bal >= amount {
            Some((bal - amount) as u128)
        } else {
            None
        }
    } else {
        if bal + amount <= u128::MAX {
            Some((bal + amount) as u128)
        } else {
            None
        }
    }
}

/// The state after changing an account's balance by an amount, if the change is allowed.
pub open spec fn modify_balance_spec(s: KeypomView, a: Seq<char>, amount: u128, decrement: bool) -> Option<
    KeypomView,
> {
    if amount == 0 {
        Some(s)
    } else {
        match balance_change(balance_in(s.funder_info_by_id, a), amount as int, decrement) {
            Some(b) => Some(KeypomView { funder_info_by_id: with_balance(s.funder_info_by_id, a, b), ..s }),
            None => None,
        }
    }
}

/// The error a refused balance change reports.
pub open spec fn balance_error(decrement: bool) -> KeypomError {
    if decrement {
        KeypomError::InsufficientBalance
    } else {
        KeypomError::Overflow
    }
}

/// The set of names stored in a map of sets, or the empty set.
pub open spec fn set_or_empty(m: Map<Seq<char>, Map<Seq<char>, ()>>, a: Seq<char>) -> Map<Seq<char>, ()> {
    if m.contains_key(a) {
        m[a]
    } else {
        Map::empty()
    }
}

/// The map of sets with a name added to an account's set.
pub open spec fn set_add(m: Map<Seq<char>, Map<Seq<char>, ()>>, a: Seq<char>, x: Seq<char>) -> Map<
    Seq<char>,
    Map<Seq<char>, ()>,
> {
    m.insert(a, set_or_empty(m, a).insert(x, ()))
}

/// The map of sets with a name removed from an account's set; an emptied set is dropped.
pub open spec fn set_remove(m: Map<Seq<char>, Map<Seq<char>, ()>>, a: Seq<char>, x: Seq<char>) -> Map<
    Seq<char>,
    Map<Seq<char>, ()>,
> {
    let s = m[a].remove(x);
    if s.dom().len() == 0 {
        m.remove(a)
    } else {
        m.insert(a, s)
    }
}

/// Fees that apply to an account.
pub open spec fn fees_for(s: KeypomView, a: Seq<char>) -> KeypomFees {
    if s.fees_per_user.contains_key(a) {
        s.fees_per_user[a]
    } else {
        s.fee_structure
    }
}

/// Fees for adding keys and perhaps creating a drop.
pub open spec fn fees_total(f: KeypomFees, num_keys: int, did_create_drop: bool) -> int {
    num_keys * f.per_key + if did_create_drop {
        f.per_drop as int
    } else {
        0
    }
}

/// Total charged for keys, storage and fees.
pub open spec fn total_cost(
    num_keys: int,
    cost_per_key: int,
    net_storage: int,
    byte_cost: int,
    fees: int,
) -> int {
    cost_per_key * num_keys + net_storage * byte_cost + fees
}

/// Whether a string occurs in a vector of strings.
pub open spec fn str_vec_contains(v: Seq<String>, a: Seq<char>) -> bool {
    exists|i: int| 0 <= i < v.len() && (#[trigger] v[i])@ == a
}

/// Whether a vector of strings holds a string (by text).
pub fn vec_contains_str(v: &Vec<String>, a: &String) -> (b: bool)
    ensures
        b == str_vec_contains(v@, a@),
{
    let mut i: usize = 0;
    while i < v.len()
        invariant
            i <= v@.len(),
            forall|j: int| 0 <= j < i ==> (#[trigger] v@[j])@ != a@,
        decreases v@.len() - i,
    {
        if v[i] == *a {
            return true;
        }
        i = i + 1;
    }
    false
}

impl Keypom {
    /// A new contract with no drops, no fees and no freeze.
    pub fn new(root_account: AccountId, owner_id: AccountId) -> (k: Self)
        ensures
            k@.contract_owner_id == owner_id@,
            k@.root_account == root_account@,
            !k@.global_freeze,
            k@.fee_structure == (KeypomFees { per_drop: 0, per_key: 0 }),
            k@.fees_collected == 0,
            k@.fees_per_user == Map::<Seq<char>, KeypomFees>::empty(),
            k@.drop_by_id == Map::<Seq<char>, DropView>::empty(),
            k@.drop_ids_by_funder == Map::<Seq<char>, Map<Seq<char>, ()>>::empty(),
            k@.token_id_by_pk == Map::<Seq<char>, Seq<char>>::empty(),
            k@.tokens_per_owner == Map::<Seq<char>, Map<Seq<char>, ()>>::empty(),
            k@.funder_info_by_id == Map::<Seq<char>, FunderView>::empty(),
    {
        Keypom {
            contract_owner_id: owner_id,
            global_freeze: false,
            fee_structure: KeypomFees { per_drop: 0, per_key: 0 },
            fees_collected: 0,
            fees_per_user: StrMap::new(),
            drop_by_id: StrMap::new(),
            drop_ids_by_funder: StrMap::new(),
            token_id_by_pk: StrMap::new(),
            root_account,
            tokens_per_owner: StrMap::new(),
            funder_info_by_id: StrMap::new(),
        }
    }

    /// Refuse when the contract is frozen, unless the caller is its owner.
    pub fn assert_no_global_freeze(&self, predecessor: &AccountId) -> (r: Result<(), KeypomError>)
        ensures
            r is Err <==> (predecessor@ != self@.contract_owner_id && self@.global_freeze),
            r is Err ==> r == Err::<(), KeypomError>(KeypomError::GlobalFreeze),
    {
        if *predecessor != self.contract_owner_id && self.global_freeze {
            Err(KeypomError::GlobalFreeze)
        } else {
            Ok(())
        }
    }

    /// Refuse unless the caller is the contract owner.
    pub fn assert_owner(&self, predecessor: &AccountId) -> (r: Result<(), KeypomError>)
        ensures
            r is Ok <==> predecessor@ == self@.contract_owner_id,
            r is Err ==> r == Err::<(), KeypomError>(KeypomError::NotOwner),
    {
        if *predecessor == self.contract_owner_id {
            Ok(())
        } else {
            Err(KeypomError::NotOwner)
        }
    }

    /// Set the account under which new accounts are created (owner only).
    pub fn set_root_account(&mut self, predecessor: &AccountId, root_account: AccountId) -> (r: Result<
        (),
        KeypomError,
    >)
        ensures
            r is Ok <==> predecessor@ == old(self)@.contract_owner_id,
            r is Ok ==> final(self)@ == (KeypomView { root_account: root_account@, ..old(self)@ }),
            r is Err ==> final(self)@ == old(self)@ && r == Err::<(), KeypomError>(KeypomError::NotOwner),
    {
        self.assert_owner(predecessor)?;
        self.root_account = root_account;
        Ok(())
    }

    /// Set the drop and key fees; an absent value keeps the current one (owner only).
    pub fn set_fees(&mut self, predecessor: &AccountId, drop_fee: Option<u128>, key_fee: Option<u128>) -> (r:
        Result<(), KeypomError>)
        ensures
            r is Ok <==> predecessor@ == old(self)@.contract_owner_id,
            r is Ok ==> final(self)@ == (KeypomView {
                fee_structure: KeypomFees {
                    per_drop: match drop_fee {
                        Some(f) => f,
                        None => old(self)@.fee_structure.per_drop,
                    },
                    per_key: match key_fee {
                        Some(f) => f,
                        None => old(self)@.fee_structure.per_key,
                    },
                },
                ..old(self)@
            }),
            r is Err ==> final(self)@ == old(self)@ && r == Err::<(), KeypomError>(KeypomError::NotOwner),
    {
        self.assert_owner(predecessor)?;
        if let Some(f) = drop_fee {
            self.fee_structure.per_drop = f;
        }
        if let Some(f) = key_fee {
            self.fee_structure.per_key = f;
        }
        Ok(())
    }

    /// Set the fees of one account (owner only).
    pub fn set_fees_per_user(
        &mut self,
        predecessor: &AccountId,
        account_id: AccountId,
        drop_fee: u128,
        key_fee: u128,
    ) -> (r: Result<(), KeypomError>)
        ensures
            r is Ok <==> predecessor@ == old(self)@.contract_owner_id,
            r is Ok ==> final(self)@ == (KeypomView {
                fees_per_user: old(self)@.fees_per_user.insert(
                    account_id@,
                    KeypomFees { per_drop: drop_fee, per_key: key_fee },
                ),
                ..old(self)@
            }),
            r is Err ==> final(self)@ == old(self)@ && r == Err::<(), KeypomError>(KeypomError::NotOwner),
    {
        self.assert_owner(predecessor)?;
        self.fees_per_user.insert(account_id, KeypomFees { per_drop: drop_fee, per_key: key_fee });
        Ok(())
    }

    /// Take the collected fees out for withdrawal (owner only); returns the amount to transfer.
    pub fn withdraw_fees(&mut self, predecessor: &AccountId) -> (r: Result<u128, KeypomError>)
        ensures
            r is Ok <==> predecessor@ == old(self)@.contract_owner_id,
            r matches Ok(a) ==> a == old(self)@.fees_collected && final(self)@ == (KeypomView {
                fees_collected: 0,
                ..old(self)@
            }),
            r is Err ==> final(self)@ == old(self)@ && r == Err::<u128, KeypomError>(KeypomError::NotOwner),
    {
        self.assert_owner(predecessor)?;
        let amount = self.fees_collected;
        self.fees_collected = 0;
        Ok(amount)
    }

    /// After a fee withdrawal: when the transfer failed, the amount is collected again.
    /// Returns whether the transfer succeeded.
    pub fn on_withdraw_fees(&mut self, fees_collected: u128, transfer_succeeded: bool) -> (b: bool)
        ensures
            b == transfer_succeeded,
            transfer_succeeded ==> final(self)@ == old(self)@,
            !transfer_succeeded ==> final(self)@ == (KeypomView {
                fees_collected: if old(self)@.fees_collected + fees_collected <= u128::MAX {
                    (old(self)@.fees_collected + fees_collected) as u128
                } else {
                    u128::MAX
                },
                ..old(self)@
            }),
    {
        if !transfer_succeeded {
            self.fees_collected = self.fees_collected.saturating_add(fees_collected);
            return false;
        }
        true
    }

    /// The prepaid balance of an account (zero without a record).
    pub fn get_user_balance(&self, account_id: &AccountId) -> (b: u128)
        ensures
            b == balance_in(self@.funder_info_by_id, account_id@),
    {
        match self.funder_info_by_id.get(account_id) {
            Some(f) => f.balance,
            None => 0,
        }
    }

    /// Add an amount to an account's balance, or take it when `decrement`. A zero amount changes
    /// nothing; taking more than the balance is refused, as is a balance past `u128::MAX`.
    pub fn internal_modify_user_balance(&mut self, account_id: &AccountId, amount: u128, decrement: bool) -> (r:
        Result<(), KeypomError>)
        ensures
            match modify_balance_spec(old(self)@, account_id@, amount, decrement) {
                Some(s) => r is Ok && final(self)@ == s,
                None => r == Err::<(), KeypomError>(balance_error(decrement)) && final(self)@ == old(self)@,
            },
    {
        if amount == 0 {
            return Ok(());
        }
        let (metadata, balance) = match self.funder_info_by_id.get(account_id) {
            Some(f) => (crate::types::clone_opt_str(&f.metadata), f.balance),
            None => (None, 0),
        };
        let new_balance = if decrement {
            if balance < amount {
                return Err(KeypomError::InsufficientBalance);
            }
            balance - amount
        } else {
            match balance.checked_add(amount) {
                Some(b) => b,
                None => {
                    return Err(KeypomError::Overflow);
                },
            }
        };
        self.funder_info_by_id.insert(account_id.clone(), FunderInfo { metadata, balance: new_balance });
        proof {
            assert(self@ == (KeypomView {
                funder_info_by_id: with_balance(old(self)@.funder_info_by_id, account_id@, new_balance),
                ..old(self)@
            }));
        }
        Ok(())
    }

    /// Add the attached deposit to the caller's balance.
    pub fn add_to_balance(&mut self, predecessor: &AccountId, attached_deposit: u128) -> (r: Result<
        (),
        KeypomError,
    >)
        ensures
            (predecessor@ != old(self)@.contract_owner_id && old(self)@.global_freeze) ==> r
                == Err::<(), KeypomError>(KeypomError::GlobalFreeze) && final(self)@ == old(self)@,
            !(predecessor@ != old(self)@.contract_owner_id && old(self)@.global_freeze) ==> (match modify_balance_spec(
                old(self)@,
                predecessor@,
                attached_deposit,
                false,
            ) {
                Some(s) => r is Ok && final(self)@ == s,
                None => r == Err::<(), KeypomError>(KeypomError::Overflow) && final(self)@ == old(self)@,
            }),
    {
        self.assert_no_global_freeze(predecessor)?;
        self.internal_modify_user_balance(predecessor, attached_deposit, false)
    }

    /// Add the attached deposit to an account's balance. Returns the new balance and the amount
    /// added; a balance past `u128::MAX` is refused.
    pub fn attached_deposit_to_user_balance(&mut self, owner_id: &AccountId, attached_deposit: u128) -> (r: Result<
        (u128, u128),
        KeypomError,
    >)
        ensures
            match modify_balance_spec(old(self)@, owner_id@, attached_deposit, false) {
                Some(s) => r == Ok::<(u128, u128), KeypomError>(
                    (balance_in(s.funder_info_by_id, owner_id@) as u128, attached_deposit),
                ) && final(self)@ == s,
                None => r == Err::<(u128, u128), KeypomError>(KeypomError::Overflow) && final(self)@ == old(self)@,
            },
    {
        self.internal_modify_user_balance(owner_id, attached_deposit, false)?;
        let balance = self.get_user_balance(owner_id);
        Ok((balance, attached_deposit))
    }

    /// Withdraw from the caller's balance: the amount given, or everything. An amount that is zero
    /// or above the balance withdraws nothing. Returns the amount to transfer to the caller.
    pub fn withdraw_from_balance(&mut self, predecessor: &AccountId, amount_to_withdraw: Option<u128>) -> (r:
        Result<u128, KeypomError>)
        ensures
            (predecessor@ != old(self)@.contract_owner_id && old(self)@.global_freeze) ==> r
                == Err::<u128, KeypomError>(KeypomError::GlobalFreeze) && final(self)@ == old(self)@,
            !(predecessor@ != old(self)@.contract_owner_id && old(self)@.global_freeze)
                && !old(self)@.funder_info_by_id.contains_key(predecessor@) ==> r == Err::<
                u128,
                KeypomError,
            >(KeypomError::UserNotFound) && final(self)@ == old(self)@,
            !(predecessor@ != old(self)@.contract_owner_id && old(self)@.global_freeze)
                && old(self)@.funder_info_by_id.contains_key(predecessor@) ==> ({
                let bal = old(self)@.funder_info_by_id[predecessor@].balance;
                let amount = match amount_to_withdraw {
                    Some(a) => a,
                    None => bal,
                };
                let taken = if amount <= bal && amount > 0 {
                    amount
                } else {
                    0
                };
                &&& r == Ok::<u128, KeypomError>(taken)
                &&& final(self)@ == (KeypomView {
                    funder_info_by_id: with_balance(
                        old(self)@.funder_info_by_id,
                        predecessor@,
                        (bal - taken) as u128,
                    ),
                    ..old(self)@
                })
            }),
    {
        self.assert_no_global_freeze(predecessor)?;
        let (metadata, balance) = match self.funder_info_by_id.get(predecessor) {
            Some(f) => (crate::types::clone_opt_str(&f.metadata), f.balance),
            None => {
                return Err(KeypomError::UserNotFound);
            },
        };
        let amount = match amount_to_withdraw {
            Some(a) => a,
            None => balance,
        };
        let taken = if amount <= balance && amount > 0 {
            amount
        } else {
            0
        };
        self.funder_info_by_id.insert(
            predecessor.clone(),
            FunderInfo { metadata, balance: balance - taken },
        );
        proof {
            assert(self@ == (KeypomView {
                funder_info_by_id: with_balance(
                    old(self)@.funder_info_by_id,
                    predecessor@,
                    (balance - taken) as u128,
                ),
                ..old(self)@
            }));
        }
        Ok(taken)
    }

    /// Charge an amount to the attached deposit, or when it does not cover it, take the rest from
    /// the caller's balance. Returns the part of the deposit to refund.
    pub fn charge_with_deposit_or_balance(
        &mut self,
        predecessor: &AccountId,
        required_deposit: Balance,
        attached_deposit: Balance,
    ) -> (r: Result<Balance, KeypomError>)
        ensures
            attached_deposit >= required_deposit ==> r == Ok::<Balance, KeypomError>(
                (attached_deposit - required_deposit) as u128,
            ) && final(self)@ == old(self)@,
            attached_deposit < required_deposit ==> (match modify_balance_spec(
                old(self)@,
                predecessor@,
                (required_deposit - attached_deposit) as u128,
                true,
            ) {
                Some(s) => r == Ok::<Balance, KeypomError>(0) && final(self)@ == s,
                None => r == Err::<Balance, KeypomError>(KeypomError::InsufficientBalance) && final(self)@ == old(self)@,
            }),
    {
        if attached_deposit >= required_deposit {
            return Ok(attached_deposit - required_deposit);
        }
        self.internal_modify_user_balance(predecessor, required_deposit - attached_deposit, true)?;
        Ok(0)
    }

    /// Charge for adding keys (and perhaps creating a drop): the assets of every key, the storage
    /// used and the fees that apply to the caller, which are collected. Returns the part of the
    /// deposit to refund.
    pub fn determine_costs(
        &mut self,
        predecessor: &AccountId,
        num_keys: usize,
        did_create_drop: bool,
        asset_cost_per_key: Balance,
        net_storage: u64,
        storage_byte_cost: Balance,
        attached_deposit: Balance,
    ) -> (r: Result<Balance, KeypomError>)
        ensures
            ({
                let fees = fees_total(fees_for(old(self)@, predecessor@), num_keys as int, did_create_drop);
                let total = total_cost(
                    num_keys as int,
                    asset_cost_per_key as int,
                    net_storage as int,
                    storage_byte_cost as int,
                    fees,
                );
                let charged = KeypomView { fees_collected: (old(self)@.fees_collected + fees) as u128, ..old(self)@ };
                if total > u128::MAX || old(self)@.fees_collected + fees > u128::MAX {
                    r == Err::<Balance, KeypomError>(KeypomError::Overflow) && final(self)@ == old(self)@
                } else if attached_deposit >= total {
                    r == Ok::<Balance, KeypomError>((attached_deposit - total) as u128) && final(self)@ == charged
                } else {
                    match modify_balance_spec(charged, predecessor@, (total - attached_deposit) as u128, true) {
                        Some(s) => r == Ok::<Balance, KeypomError>(0) && final(self)@ == s,
                        None => r == Err::<Balance, KeypomError>(KeypomError::InsufficientBalance) && final(self)@ == old(self)@,
                    }
                }
            }),
    {
        let fees = match self.fees_per_user.get(predecessor) {
            Some(f) => *f,
            None => self.fee_structure,
        };
        let n = num_keys as u128;
        let ghost total = total_cost(
            num_keys as int,
            asset_cost_per_key as int,
            net_storage as int,
            storage_byte_cost as int,
            fees_total(fees, num_keys as int, did_create_drop),
        );
        proof {
            lemma_mul_nonneg(asset_cost_per_key as int, num_keys as int);
            lemma_mul_nonneg(net_storage as int, storage_byte_cost as int);
            lemma_mul_nonneg(num_keys as int, fees.per_key as int);
        }
        let storage_cost = match (net_storage as u128).checked_mul(storage_byte_cost) {
            Some(c) => c,
            None => {
                return Err(KeypomError::Overflow);
            },
        };
        let asset_cost = match asset_cost_per_key.checked_mul(n) {
            Some(c) => c,
            None => {
                return Err(KeypomError::Overflow);
            },
        };
        let key_fees = match n.checked_mul(fees.per_key) {
            Some(c) => c,
            None => {
                return Err(KeypomError::Overflow);
            },
        };
        let drop_fee: u128 = if did_create_drop {
            fees.per_drop
        } else {
            0
        };
        let total_fees = match key_fees.checked_add(drop_fee) {
            Some(c) => c,
            None => {
                return Err(KeypomError::Overflow);
            },
        };
        let partial = match asset_cost.checked_add(storage_cost) {
            Some(c) => c,
            None => {
                return Err(KeypomError::Overflow);
            },
        };
        let total_cost = match partial.checked_add(total_fees) {
            Some(c) => c,
            None => {
                return Err(KeypomError::Overflow);
            },
        };
        let new_collected = match self.fees_collected.checked_add(total_fees) {
            Some(c) => c,
            None => {
                return Err(KeypomError::Overflow);
            },
        };
        if attached_deposit < total_cost {
            let needed = total_cost - attached_deposit;
            if self.get_user_balance(predecessor) < needed {
                return Err(KeypomError::InsufficientBalance);
            }
            self.fees_collected = new_collected;
            let res = self.internal_modify_user_balance(predecessor, needed, true);
            proof {
                assert(res is Ok);
            }
            return Ok(0);
        }
        self.fees_collected = new_collected;
        Ok(attached_deposit - total_cost)
    }

    /// Record a drop as one of a funder's.
    pub fn internal_add_drop_to_funder(&mut self, funder_id: &AccountId, drop_id: &DropId)
        ensures
            final(self)@ == (KeypomView {
                drop_ids_by_funder: set_add(old(self)@.drop_ids_by_funder, funder_id@, drop_id@),
                ..old(self)@
            }),
    {
        let mut set = match self.drop_ids_by_funder.remove(funder_id) {
            Some(s) => s,
            None => StrMap::new(),
        };
        set.insert(drop_id.clone(), ());
        self.drop_ids_by_funder.insert(funder_id.clone(), set);
        proof {
            assert(self@.drop_ids_by_funder =~= set_add(old(self)@.drop_ids_by_funder, funder_id@, drop_id@));
        }
    }

    /// Forget a drop of a funder; a funder left without drops is removed. Refused when the funder
    /// has no drops recorded.
    pub fn internal_remove_drop_for_funder(&mut self, funder_id: &AccountId, drop_id: &DropId) -> (r: Result<
        (),
        KeypomError,
    >)
        ensures
            old(self)@.drop_ids_by_funder.contains_key(funder_id@) ==> r is Ok && final(self)@ == (KeypomView {
                drop_ids_by_funder: set_remove(old(self)@.drop_ids_by_funder, funder_id@, drop_id@),
                ..old(self)@
            }),
            !old(self)@.drop_ids_by_funder.contains_key(funder_id@) ==> r == Err::<(), KeypomError>(
                KeypomError::DropNotFound,
            ) && final(self)@ == old(self)@,
    {
        let mut set = match self.drop_ids_by_funder.remove(funder_id) {
            Some(s) => s,
            None => {
                proof {
                    assert(self@.drop_ids_by_funder =~= old(self)@.drop_ids_by_funder);
                }
                return Err(KeypomError::DropNotFound);
            },
        };
        set.remove(drop_id);
        if !set.is_empty() {
            self.drop_ids_by_funder.insert(funder_id.clone(), set);
        }
        proof {
            assert(self@.drop_ids_by_funder =~= set_remove(old(self)@.drop_ids_by_funder, funder_id@, drop_id@));
        }
        Ok(())
    }

    /// Record a token as one of an account's.
    pub fn internal_add_token_to_owner(&mut self, account_id: &AccountId, token_id: &TokenId)
        ensures
            final(self)@ == (KeypomView {
                tokens_per_owner: set_add(old(self)@.tokens_per_owner, account_id@, token_id@),
                ..old(self)@
            }),
    {
        let mut set = match self.tokens_per_owner.remove(account_id) {
            Some(s) => s,
            None => StrMap::new(),
        };
        set.insert(token_id.clone(), ());
        self.tokens_per_owner.insert(account_id.clone(), set);
        proof {
            assert(self@.tokens_per_owner =~= set_add(old(self)@.tokens_per_owner, account_id@, token_id@));
        }
    }

    /// Forget a token of an account; an account left without tokens is removed. Refused when the
    /// account owns no tokens.
    pub fn internal_remove_token_from_owner(&mut self, account_id: &AccountId, token_id: &TokenId) -> (r:
        Result<(), KeypomError>)
        ensures
            old(self)@.tokens_per_owner.contains_key(account_id@) ==> r is Ok && final(self)@ == (KeypomView {
                tokens_per_owner: set_remove(old(self)@.tokens_per_owner, account_id@, token_id@),
                ..old(self)@
            }),
            !old(self)@.tokens_per_owner.contains_key(account_id@) ==> r == Err::<(), KeypomError>(
                KeypomError::Unauthorized,
            ) && final(self)@ == old(self)@,
    {
        let mut set = match self.tokens_per_owner.remove(account_id) {
            Some(s) => s,
            None => {
                proof {
                    assert(self@.tokens_per_owner =~= old(self)@.tokens_per_owner);
                }
                return Err(KeypomError::Unauthorized);
            },
        };
        set.remove(token_id);
        if !set.is_empty() {
            self.tokens_per_owner.insert(account_id.clone(), set);
        }
        proof {
            assert(self@.tokens_per_owner =~= set_remove(old(self)@.tokens_per_owner, account_id@, token_id@));
        }
        Ok(())
    }
}

impl Keypom {
    /// Deal with the part of a deposit that a call did not use: kept in the caller's balance when
    /// asked, else sent back. Returns the amount to transfer back to the caller.
    pub fn handle_excess_deposit(
        &mut self,
        predecessor: &AccountId,
        refund_amount: Balance,
        keep_excess_deposit: Option<bool>,
    ) -> (r: Result<Balance, KeypomError>)
        ensures
            refund_amount == 0 ==> r == Ok::<Balance, KeypomError>(0) && final(self)@ == old(self)@,
            refund_amount > 0 && keep_excess_deposit == Some(true) ==> (match modify_balance_spec(
                old(self)@,
                predecessor@,
                refund_amount,
                false,
            ) {
                Some(s) => r == Ok::<Balance, KeypomError>(0) && final(self)@ == s,
                None => r == Err::<Balance, KeypomError>(KeypomError::Overflow) && final(self)@ == old(self)@,
            }),
            refund_amount > 0 && keep_excess_deposit != Some(true) ==> r == Ok::<Balance, KeypomError>(
                refund_amount,
            ) && final(self)@ == old(self)@,
    {
        if refund_amount == 0 {
            return Ok(0);
        }
        let keep = match keep_excess_deposit {
            Some(b) => b,
            None => false,
        };
        if keep {
            self.internal_modify_user_balance(predecessor, refund_amount, false)?;
            return Ok(0);
        }
        Ok(refund_amount)
    }
}

/// Funder metadata after an update: overwritten, or appended by merging the two JSON objects
/// (the old text without its last character, a comma, the new text without its first). `None`
/// when the update is refused: new text that is not JSON, an append without new text, or a merge
/// that is not JSON.
pub open spec fn metadata_update(existing: Option<Seq<char>>, new: Option<Seq<char>>, append: bool) -> Option<
    Option<Seq<char>>,
> {
    if new matches Some(n) && !json_parses(n) {
        None
    } else if append && existing is Some {
        match new {
            Some(n) => {
                let e = existing.unwrap();
                let m = merged_metadata(e, n);
                if e.len() > 0 && n.len() > 0 && json_parses(m) {
                    Some(Some(m))
                } else {
                    None
                }
            },
            None => None,
        }
    } else {
        Some(new)
    }
}

/// Two JSON objects merged as text.
pub open spec fn merged_metadata(e: Seq<char>, n: Seq<char>) -> Seq<char> {
    e.drop_last() + seq![','] + n.drop_first()
}

/// The $NEAR to refund after a change of storage: the deposit less the cost of the bytes added,
/// or plus the release of the bytes freed. `None` when an amount does not fit.
pub open spec fn storage_settlement(initial: int, fin: int, byte_cost: int, deposit: int) -> Option<int> {
    if fin > initial {
        let cost = (fin - initial) * byte_cost;
        if cost > u128::MAX {
            None
        } else if deposit < cost {
            Some(0)
        } else {
            Some(deposit - cost)
        }
    } else {
        let release = (initial - fin) * byte_cost;
        if release > u128::MAX || deposit + release > u128::MAX {
            None
        } else {
            Some(deposit + release)
        }
    }
}

impl Keypom {
    /// Change the caller's metadata: overwrite it, or (by default) merge the new JSON object into
    /// the existing one. Refused with `InvalidMetadata` as `metadata_update` describes.
    pub fn internal_modify_user_metadata(
        &mut self,
        caller_id: &AccountId,
        new_metadata: Option<String>,
        append_to_metadata: Option<bool>,
    ) -> (r: Result<(), KeypomError>)
        ensures
            ({
                let f = funder_or_new(old(self)@.funder_info_by_id, caller_id@);
                let append = match append_to_metadata {
                    Some(b) => b,
                    None => true,
                };
                match metadata_update(f.metadata, opt_view(new_metadata), append) {
                    Some(m) => r is Ok && final(self)@ == (KeypomView {
                        funder_info_by_id: old(self)@.funder_info_by_id.insert(
                            caller_id@,
                            FunderView { metadata: m, ..f },
                        ),
                        ..old(self)@
                    }),
                    None => r == Err::<(), KeypomError>(KeypomError::InvalidMetadata) && final(self)@
                        == old(self)@,
                }
            }),
    {
        let (existing, balance) = match self.funder_info_by_id.get(caller_id) {
            Some(f) => (crate::types::clone_opt_str(&f.metadata), f.balance),
            None => (None, 0),
        };
        if let Some(n) = &new_metadata {
            if !is_valid_json(n.as_str()) {
                return Err(KeypomError::InvalidMetadata);
            }
        }
        let append = match append_to_metadata {
            Some(b) => b,
            None => true,
        };
        let updated: Option<String> = if append && existing.is_some() {
            let e = existing.unwrap();
            match new_metadata {
                Some(n) => {
                    let el = e.as_str().unicode_len();
                    let nl = n.as_str().unicode_len();
                    if el == 0 || nl == 0 {
                        return Err(KeypomError::InvalidMetadata);
                    }
                    let mut m = String::from_str(e.as_str().substring_char(0, el - 1));
                    m.append(",");
                    m.append(n.as_str().substring_char(1, nl));
                    proof {
                        reveal_strlit(",");
                        assert(m@ =~= merged_metadata(e@, n@));
                    }
                    if !is_valid_json(m.as_str()) {
                        return Err(KeypomError::InvalidMetadata);
                    }
                    Some(m)
                },
                None => {
                    return Err(KeypomError::InvalidMetadata);
                },
            }
        } else {
            new_metadata
        };
        self.funder_info_by_id.insert(caller_id.clone(), FunderInfo { metadata: updated, balance });
        Ok(())
    }

    /// Set the caller's funder metadata (merged into the existing metadata).
    pub fn set_funder_metadata(&mut self, predecessor: &AccountId, metadata: Option<String>) -> (r: Result<
        (),
        KeypomError,
    >)
        ensures
            (predecessor@ != old(self)@.contract_owner_id && old(self)@.global_freeze) ==> r
                == Err::<(), KeypomError>(KeypomError::GlobalFreeze) && final(self)@ == old(self)@,
            !(predecessor@ != old(self)@.contract_owner_id && old(self)@.global_freeze) ==> ({
                let f = funder_or_new(old(self)@.funder_info_by_id, predecessor@);
                match metadata_update(f.metadata, opt_view(metadata), true) {
                    Some(m) => r is Ok && final(self)@ == (KeypomView {
                        funder_info_by_id: old(self)@.funder_info_by_id.insert(
                            predecessor@,
                            FunderView { metadata: m, ..f },
                        ),
                        ..old(self)@
                    }),
                    None => r == Err::<(), KeypomError>(KeypomError::InvalidMetadata) && final(self)@
                        == old(self)@,
                }
            }),
    {
        self.assert_no_global_freeze(predecessor)?;
        self.internal_modify_user_metadata(predecessor, metadata, None)
    }

    /// Settle the storage a metadata change used: charge the bytes added to the deposit, or to the
    /// caller's balance where the deposit falls short, or refund the bytes freed. Returns the
    /// $NEAR to refund.
    pub fn settle_metadata_storage(
        &mut self,
        caller_id: &AccountId,
        initial_storage: u64,
        final_storage: u64,
        storage_byte_cost: Balance,
        attached_deposit: Balance,
    ) -> (r: Result<Balance, KeypomError>)
        ensures
            ({
                let settled = storage_settlement(
                    initial_storage as int,
                    final_storage as int,
                    storage_byte_cost as int,
                    attached_deposit as int,
                );
                let cost = (final_storage - initial_storage) * storage_byte_cost;
                match settled {
                    None => r == Err::<Balance, KeypomError>(KeypomError::Overflow) && final(self)@ == old(self)@,
                    Some(v) => if final_storage > initial_storage && attached_deposit < cost {
                        match modify_balance_spec(old(self)@, caller_id@, (cost - attached_deposit) as u128, true) {
                            Some(s) => r == Ok::<Balance, KeypomError>(0) && final(self)@ == s,
                            None => r == Err::<Balance, KeypomError>(KeypomError::InsufficientBalance)
                                && final(self)@ == old(self)@,
                        }
                    } else {
                        r == Ok::<Balance, KeypomError>(v as u128) && final(self)@ == old(self)@
                    },
                }
            }),
    {
        if final_storage > initial_storage {
            let bytes = (final_storage - initial_storage) as u128;
            let cost = match bytes.checked_mul(storage_byte_cost) {
                Some(c) => c,
                None => {
                    return Err(KeypomError::Overflow);
                },
            };
            if attached_deposit < cost {
                self.internal_modify_user_balance(caller_id, cost - attached_deposit, true)?;
                return Ok(0);
            }
            Ok(attached_deposit - cost)
        } else {
            let bytes = (initial_storage - final_storage) as u128;
            let release = match bytes.checked_mul(storage_byte_cost) {
                Some(c) => c,
                None => {
                    return Err(KeypomError::Overflow);
                },
            };
            match attached_deposit.checked_add(release) {
                Some(v) => Ok(v),
                None => Err(KeypomError::Overflow),
            }
        }
    }
}

/// Adding an amount to an account's balance and taking it again leaves every balance and the
/// rest of the state as they were.
pub proof fn lemma_balance_add_then_take(s: KeypomView, a: Seq<char>, amount: u128)
    requires
        balance_in(s.funder_info_by_id, a) + amount <= u128::MAX,
    ensures
        modify_balance_spec(s, a, amount, false) is Some,
        modify_balance_spec(modify_balance_spec(s, a, amount, false).unwrap(), a, amount, true) is Some,
        ({
            let s2 = modify_balance_spec(modify_balance_spec(s, a, amount, false).unwrap(), a, amount, true).unwrap();
            &&& forall|b: Seq<char>| #[trigger] balance_in(s2.funder_info_by_id, b) == balance_in(s.funder_info_by_id, b)
            &&& (KeypomView { funder_info_by_id: s.funder_info_by_id, ..s2 }) == s
        }),
{
    if amount > 0 {
        let s1 = modify_balance_spec(s, a, amount, false).unwrap();
        assert(balance_in(s1.funder_info_by_id, a) == balance_in(s.funder_info_by_id, a) + amount);
        let s2 = modify_balance_spec(s1, a, amount, true).unwrap();
        assert forall|b: Seq<char>| #[trigger] balance_in(s2.funder_info_by_id, b) == balance_in(s.funder_info_by_id, b) by {
            if b != a {
                assert(s2.funder_info_by_id.contains_key(b) == s.funder_info_by_id.contains_key(b));
            }
        }
    }
}

/// A refused balance change, or one that takes more than the balance, leaves the state as it
/// was; a change that is made never leaves a balance below zero or above `u128::MAX`.
pub proof fn lemma_balance_never_overdrawn(s: KeypomView, a: Seq<char>, amount: u128)
    ensures
        balance_in(s.funder_info_by_id, a) < amount ==> modify_balance_spec(s, a, amount, true) is None,
        modify_balance_spec(s, a, amount, true) matches Some(s1) ==> balance_in(s1.funder_info_by_id, a)
            == balance_in(s.funder_info_by_id, a) - amount,
{
}

/// A fee withdrawal whose transfer fails gives the owner nothing: `withdraw_fees` takes the
/// collected fees out, and `on_withdraw_fees` told of the failure puts the same amount back,
/// leaving the state as it was.
pub proof fn lemma_failed_fee_withdrawal_restores(s: KeypomView, taken: KeypomView, restored: KeypomView, amount: u128)
    requires
        amount == s.fees_collected,
        taken == (KeypomView { fees_collected: 0, ..s }),
        restored == (KeypomView {
            fees_collected: if taken.fees_collected + amount <= u128::MAX {
                (taken.fees_collected + amount) as u128
            } else {
                u128::MAX
            },
            ..taken
        }),
    ensures
        restored == s,
{
}

/// Products of naturals are natural.
pub proof fn lemma_mul_nonneg(a: int, b: int)
    requires
        a >= 0,
        b >= 0,
    ensures
        a * b >= 0,
{
    assert(a * b >= 0) by (nonlinear_arith)
        requires
            a >= 0,
            b >= 0,
    ;
}

} // verus!
