//! Keys seen as non-fungible tokens: transfers to a new owner and public key, approvals, and
//! enumeration.

use vstd::prelude::*;
use crate::assets::str_seq;
use crate::claiming::{drop_of, key_found, key_of, lookup_error};
use crate::external::{ed25519_valid, ed25519_verify, public_key_data};
use crate::helpers::{pk_to_32_byte_array, vec_to_64_byte_array};
use crate::state::{
    opt_view, set_add, set_or_empty, set_remove, DropView, InternalKeyInfo, KeyInfoView, Keypom,
    KeypomView,
};
use crate::strmap::StrMap;
use crate::token_id::{has_colon, parse_token_id};
use crate::types::{AccountId, Balance, KeypomError, PublicKey, TokenId};
use crate::uses::{costs_result, get_total_costs_for_key, remaining_data_spec};

verus! {

/// The account that owns a key: its owner, or the contract itself.
pub open spec fn key_owner(k: KeyInfoView, current: Seq<char>) -> Seq<char> {
    match k.owner_id {
        Some(o) => o,
        None => current,
    }
}

/// Whether a sender may transfer a key: its owner, or an approved account whose approval ID is
/// the one given, if one is given.
pub open spec fn transfer_auth_error(k: KeyInfoView, sender: Seq<char>, approval_id: Option<u64>, current: Seq<char>) -> Option<
    KeypomError,
> {
    if sender == key_owner(k, current) {
        None
    } else if !k.approved_account_ids.contains_key(sender) {
        Some(KeypomError::Unauthorized)
    } else if approval_id matches Some(a) && a != k.approved_account_ids[sender] {
        Some(KeypomError::ApprovalIdMismatch)
    } else {
        None
    }
}

/// The extra allowance a drop gives each key.
pub open spec fn extra_allowance(d: DropView) -> Balance {
    match d.config {
        Some(c) => match c.extra_allowance_per_key {
            Some(a) => a,
            None => 0,
        },
        None => 0,
    }
}

/// The first refusal met when transferring a key, if any.
pub open spec fn transfer_error(
    s: KeypomView,
    sender: Seq<char>,
    t: Seq<char>,
    approval_id: Option<u64>,
    new_pk: Seq<char>,
    current: Seq<char>,
    now: u64,
) -> Option<KeypomError> {
    match lookup_error(s, t) {
        Some(e) => Some(e),
        None => {
            let d = s.drop_by_id[drop_of(t)];
            let k = key_of(s, t);
            match transfer_auth_error(k, sender, approval_id, current) {
                Some(e) => Some(e),
                None => if k.owner_id matches Some(o) && !s.tokens_per_owner.contains_key(o) {
                    Some(KeypomError::Unauthorized)
                } else if new_pk != k.pub_key && s.token_id_by_pk.contains_key(new_pk) {
                    Some(KeypomError::KeyAlreadyAdded)
                } else {
                    match costs_result(
                        remaining_data_spec(d.asset_data_for_uses, k.remaining_uses as int),
                        d.asset_by_id,
                        now,
                    ) {
                        Err(e) => Some(e),
                        Ok(_) => None,
                    }
                },
            }
        },
    }
}

/// The state after a key moves to a new owner (or to the contract) and a new public key; its
/// approvals are cleared.
pub open spec fn transfer_state(s: KeypomView, receiver: Option<Seq<char>>, t: Seq<char>, new_pk: Seq<char>) -> KeypomView {
    let d = s.drop_by_id[drop_of(t)];
    let k = key_of(s, t);
    let owners1 = match k.owner_id {
        Some(o) => set_remove(s.tokens_per_owner, o, t),
        None => s.tokens_per_owner,
    };
    let owners2 = match receiver {
        Some(r) => set_add(owners1, r, t),
        None => owners1,
    };
    let k2 = KeyInfoView { owner_id: receiver, pub_key: new_pk, approved_account_ids: Map::empty(), ..k };
    KeypomView {
        drop_by_id: s.drop_by_id.insert(
            drop_of(t),
            DropView { key_info_by_token_id: d.key_info_by_token_id.insert(t, k2), ..d },
        ),
        token_id_by_pk: s.token_id_by_pk.remove(k.pub_key).insert(new_pk, t),
        tokens_per_owner: owners2,
        ..s
    }
}

/// What a key transfer hands on: the previous owner, the public key to delete, and the
/// allowance of the new access key.
pub struct TransferOutcome {
    /// The previous owner (the contract itself when the key had none).
    pub old_owner_id: AccountId,
    /// The public key whose access key is deleted.
    pub old_public_key: PublicKey,
    /// Allowance of the access key added for the new public key.
    pub new_key_allowance: Balance,
}

/// Check that a sender owns a key, unless the sender is the contract (a call signed with the key).
pub fn check_key_owner(sender_id: &AccountId, key_info: &InternalKeyInfo, current_account_id: &AccountId) -> (r:
    Result<(), KeypomError>)
    ensures
        r is Ok <==> (sender_id@ == current_account_id@ || key_owner(key_info@, current_account_id@)
            == sender_id@),
        r is Err ==> r == Err::<(), KeypomError>(KeypomError::Unauthorized),
{
    if *sender_id != *current_account_id {
        let owner_ok = match &key_info.owner_id {
            Some(o) => *o == *sender_id,
            None => *current_account_id == *sender_id,
        };
        if !owner_ok {
            return Err(KeypomError::Unauthorized);
        }
    }
    Ok(())
}

/// Whether a signature of a message verifies under a public key: the signature must have 64
/// bytes and the key 32 (or 33 with its curve byte).
pub open spec fn signature_ok(signature: Seq<u8>, public_key: Seq<char>, message: Seq<u8>) -> bool {
    &&& signature.len() == 64
    &&& public_key_data(public_key) matches Some(b)
    &&& (b.len() == 33 || b.len() == 32)
    &&& ed25519_valid(signature, message, if b.len() == 33 {
        b.subrange(1, 33)
    } else {
        b
    })
}

/// Verify a signature of a message under a public key.
pub fn verify_signature(signature: Vec<u8>, public_key: &PublicKey, message: &Vec<u8>) -> (b: bool)
    ensures
        b == signature_ok(signature@, public_key@, message@),
{
    let sig = match vec_to_64_byte_array(signature) {
        Some(s) => s,
        None => {
            return false;
        },
    };
    let pk = match pk_to_32_byte_array(public_key) {
        Some(p) => p,
        None => {
            return false;
        },
    };
    ed25519_verify(&sig, message.as_slice(), &pk)
}

/// The call an approval asks to make on the approved account.
pub struct ApprovalCallback {
    /// The approved account.
    pub account_id: AccountId,
    /// The token approved.
    pub token_id: TokenId,
    /// The owner of the token.
    pub owner_id: AccountId,
    /// The approval ID given.
    pub approval_id: u64,
    /// The message passed on.
    pub msg: String,
}

impl Keypom {
    /// Transfer a key: the sender must own it or be approved for it; its public key is replaced,
    /// its owner becomes the receiver (the contract when none is given) and its approvals are
    /// cleared. Refused as `transfer_error` describes, changing nothing.
    pub fn internal_transfer(
        &mut self,
        sender_id: &AccountId,
        receiver_id: Option<AccountId>,
        token_id: &TokenId,
        approval_id: Option<u64>,
        new_public_key: PublicKey,
        current_account_id: &AccountId,
        block_timestamp: u64,
    ) -> (r: Result<TransferOutcome, KeypomError>)
        ensures
            match transfer_error(
                old(self)@,
                sender_id@,
                token_id@,
                approval_id,
                new_public_key@,
                current_account_id@,
                block_timestamp,
            ) {
                Some(e) => r matches Err(x) && x == e && final(self)@ == old(self)@,
                None => {
                    let s = old(self)@;
                    let k = key_of(s, token_id@);
                    &&& r matches Ok(out) && out.old_owner_id@ == key_owner(k, current_account_id@)
                        && out.old_public_key@ == k.pub_key && out.new_key_allowance == extra_allowance(
                        s.drop_by_id[drop_of(token_id@)],
                    )
                    &&& final(self)@ == transfer_state(s, opt_view(receiver_id), token_id@, new_public_key@)
                },
            },
    {
        if !has_colon(token_id) {
            return Err(KeypomError::InvalidTokenId);
        }
        let (drop_id, _key_id) = match parse_token_id(token_id) {
            Ok(p) => p,
            Err(_) => {
                return Err(KeypomError::InvalidTokenId);
            },
        };
        let drop_ref = match self.drop_by_id.get(&drop_id) {
            Some(d) => d,
            None => {
                return Err(KeypomError::DropNotFound);
            },
        };
        let key_ref = match drop_ref.key_info_by_token_id.get(token_id) {
            Some(k) => k,
            None => {
                return Err(KeypomError::KeyNotFound);
            },
        };
        let old_owner = match &key_ref.owner_id {
            Some(o) => o.clone(),
            None => current_account_id.clone(),
        };
        if *sender_id != old_owner {
            match key_ref.approved_account_ids.get(sender_id) {
                None => {
                    return Err(KeypomError::Unauthorized);
                },
                Some(actual) => {
                    if let Some(a) = approval_id {
                        if a != *actual {
                            return Err(KeypomError::ApprovalIdMismatch);
                        }
                    }
                },
            }
        }
        if let Some(o) = &key_ref.owner_id {
            if !self.tokens_per_owner.contains_key(o) {
                return Err(KeypomError::Unauthorized);
            }
        }
        if new_public_key != key_ref.pub_key && self.token_id_by_pk.contains_key(&new_public_key) {
            return Err(KeypomError::KeyAlreadyAdded);
        }
        let _cost = get_total_costs_for_key(
            key_ref.remaining_uses,
            &drop_ref.asset_by_id,
            &drop_ref.asset_data_for_uses,
            block_timestamp,
        )?;
        let allowance = match &drop_ref.config {
            Some(c) => match c.extra_allowance_per_key {
                Some(a) => a,
                None => 0,
            },
            None => 0,
        };
        let old_pub_key = key_ref.pub_key.clone();
        let old_owner_opt = crate::types::clone_opt_str(&key_ref.owner_id);
        let ghost s0 = self@;
        let ghost d0 = s0.drop_by_id[drop_id@];
        let ghost k0 = d0.key_info_by_token_id[token_id@];
        proof {
            assert(drop_of(token_id@) == drop_id@);
        }
        if let Some(o) = &old_owner_opt {
            let res = self.internal_remove_token_from_owner(o, token_id);
            proof {
                assert(res is Ok);
            }
        }
        if let Some(r) = &receiver_id {
            self.internal_add_token_to_owner(r, token_id);
        }
        self.token_id_by_pk.remove(&old_pub_key);
        let mut drop = match self.drop_by_id.remove(&drop_id) {
            Some(d) => d,
            None => {
                proof {
                    assert(false);
                }
                return Err(KeypomError::DropNotFound);
            },
        };
        let key = match drop.key_info_by_token_id.remove(token_id) {
            Some(k) => k,
            None => {
                proof {
                    assert(false);
                }
                return Err(KeypomError::KeyNotFound);
            },
        };
        let new_key = InternalKeyInfo {
            pub_key: new_public_key.clone(),
            remaining_uses: key.remaining_uses,
            owner_id: receiver_id,
            last_claimed: key.last_claimed,
            metadata: key.metadata,
            pw_by_use: key.pw_by_use,
            approved_account_ids: StrMap::new(),
            next_approval_id: key.next_approval_id,
        };
        let ghost k2 = new_key@;
        drop.key_info_by_token_id.insert(token_id.clone(), new_key);
        proof {
            assert(drop.key_info_by_token_id@ =~= d0.key_info_by_token_id.insert(token_id@, k2));
        }
        self.drop_by_id.insert(drop_id.clone(), drop);
        self.token_id_by_pk.insert(new_public_key, token_id.clone());
        proof {
            let want = transfer_state(s0, opt_view(receiver_id), token_id@, new_public_key@);
            assert(self@.drop_by_id =~= want.drop_by_id);
            assert(self@.token_id_by_pk =~= want.token_id_by_pk);
        }
        Ok(TransferOutcome { old_owner_id: old_owner, old_public_key: old_pub_key, new_key_allowance: allowance })
    }

    /// Transfer the key the signer holds (or the one named) to a receiver and a new public key.
    pub fn nft_transfer(
        &mut self,
        sender_id: &AccountId,
        signer_pk: &PublicKey,
        token_id: Option<TokenId>,
        receiver_id: Option<AccountId>,
        approval_id: Option<u64>,
        memo: PublicKey,
        current_account_id: &AccountId,
        block_timestamp: u64,
    ) -> (r: Result<TransferOutcome, KeypomError>)
        ensures
            !old(self)@.token_id_by_pk.contains_key(signer_pk@) && token_id is None ==> (r matches Err(x)
                && x == KeypomError::TokenNotFound && final(self)@ == old(self)@),
            old(self)@.token_id_by_pk.contains_key(signer_pk@) || token_id is Some ==> {
                let t = if old(self)@.token_id_by_pk.contains_key(signer_pk@) {
                    old(self)@.token_id_by_pk[signer_pk@]
                } else {
                    token_id.unwrap()@
                };
                match transfer_error(old(self)@, sender_id@, t, approval_id, memo@, current_account_id@, block_timestamp) {
                    Some(e) => r matches Err(x) && x == e && final(self)@ == old(self)@,
                    None => {
                        let k = key_of(old(self)@, t);
                        &&& r matches Ok(out) && out.old_owner_id@ == key_owner(k, current_account_id@)
                            && out.old_public_key@ == k.pub_key && out.new_key_allowance == extra_allowance(
                            old(self)@.drop_by_id[drop_of(t)],
                        )
                        &&& final(self)@ == transfer_state(old(self)@, opt_view(receiver_id), t, memo@)
                    },
                }
            },
    {
        let t = match self.token_id_by_pk.get(signer_pk) {
            Some(t) => t.clone(),
            None => match token_id {
                Some(t) => t,
                None => {
                    return Err(KeypomError::TokenNotFound);
                },
            },
        };
        self.internal_transfer(sender_id, receiver_id, &t, approval_id, memo, current_account_id, block_timestamp)
    }
}

/// The first refusal met when approving an account for a key, if any.
pub open spec fn approve_error(
    s: KeypomView,
    predecessor: Seq<char>,
    linkdrop_pk: Seq<char>,
    signature: Seq<u8>,
    signed_args: Seq<u8>,
    current: Seq<char>,
) -> Option<KeypomError> {
    if predecessor != s.contract_owner_id && s.global_freeze {
        Some(KeypomError::GlobalFreeze)
    } else if !signature_ok(signature, linkdrop_pk, signed_args) {
        Some(KeypomError::InvalidSignature)
    } else if !s.token_id_by_pk.contains_key(linkdrop_pk) {
        Some(KeypomError::KeyNotFound)
    } else {
        let t = s.token_id_by_pk[linkdrop_pk];
        match lookup_error(s, t) {
            Some(e) => Some(e),
            None => {
                let k = key_of(s, t);
                if !(predecessor == current || key_owner(k, current) == predecessor) {
                    Some(KeypomError::Unauthorized)
                } else if k.next_approval_id == u64::MAX {
                    Some(KeypomError::Overflow)
                } else {
                    None
                }
            },
        }
    }
}

/// The state after approving an account for a key: it gets the key's next approval ID.
pub open spec fn approve_state(s: KeypomView, t: Seq<char>, account: Seq<char>) -> KeypomView {
    let d = s.drop_by_id[drop_of(t)];
    let k = key_of(s, t);
    let k2 = KeyInfoView {
        approved_account_ids: k.approved_account_ids.insert(account, k.next_approval_id),
        next_approval_id: (k.next_approval_id + 1) as u64,
        ..k
    };
    KeypomView {
        drop_by_id: s.drop_by_id.insert(
            drop_of(t),
            DropView { key_info_by_token_id: d.key_info_by_token_id.insert(t, k2), ..d },
        ),
        ..s
    }
}

/// The message of an approval: the key that signs it, its signature of the approval arguments
/// and the message to hand on to the approved account.
pub struct NftApproveMsg {
    /// The key whose token is approved.
    pub linkdrop_pk: PublicKey,
    /// Signature of the approval arguments by that key.
    pub signature: Vec<u8>,
    /// Message for `nft_on_approve`, if any.
    pub msg: Option<String>,
}

impl Keypom {
    /// Approve an account to transfer a key, authorised by a signature of the approval arguments
    /// with the key itself. Returns the `nft_on_approve` call to make when a message is given.
    /// Refused as `approve_error` describes, changing nothing.
    pub fn nft_approve(
        &mut self,
        predecessor: &AccountId,
        current_account_id: &AccountId,
        account_id: &AccountId,
        approve_msg: NftApproveMsg,
        signed_args: &Vec<u8>,
    ) -> (r: Result<Option<ApprovalCallback>, KeypomError>)
        ensures
            match approve_error(
                old(self)@,
                predecessor@,
                approve_msg.linkdrop_pk@,
                approve_msg.signature@,
                signed_args@,
                current_account_id@,
            ) {
                Some(e) => r matches Err(x) && x == e && final(self)@ == old(self)@,
                None => {
                    let s = old(self)@;
                    let t = s.token_id_by_pk[approve_msg.linkdrop_pk@];
                    let k = key_of(s, t);
                    &&& final(self)@ == approve_state(s, t, account_id@)
                    &&& r matches Ok(cb) && match approve_msg.msg {
                        Some(m) => cb matches Some(c) && c.account_id@ == account_id@ && c.token_id@ == t
                            && c.owner_id@ == key_owner(k, current_account_id@) && c.approval_id
                            == k.next_approval_id && c.msg@ == m@ && c.approval_id == key_of(final(self)@, t).approved_account_ids[
                            account_id@],
                        None => cb is None,
                    }
                },
            },
    {
        self.assert_no_global_freeze(predecessor)?;
        let NftApproveMsg { linkdrop_pk, signature, msg } = approve_msg;
        if !verify_signature(signature, &linkdrop_pk, signed_args) {
            return Err(KeypomError::InvalidSignature);
        }
        let token_id = match self.token_id_by_pk.get(&linkdrop_pk) {
            Some(t) => t.clone(),
            None => {
                return Err(KeypomError::KeyNotFound);
            },
        };
        if !has_colon(&token_id) {
            return Err(KeypomError::InvalidTokenId);
        }
        let (drop_id, _key_id) = match parse_token_id(&token_id) {
            Ok(p) => p,
            Err(_) => {
                return Err(KeypomError::InvalidTokenId);
            },
        };
        let drop_ref = match self.drop_by_id.get(&drop_id) {
            Some(d) => d,
            None => {
                return Err(KeypomError::DropNotFound);
            },
        };
        let key_ref = match drop_ref.key_info_by_token_id.get(&token_id) {
            Some(k) => k,
            None => {
                return Err(KeypomError::KeyNotFound);
            },
        };
        check_key_owner(predecessor, key_ref, current_account_id)?;
        if key_ref.next_approval_id == u64::MAX {
            return Err(KeypomError::Overflow);
        }
        let owner = match &key_ref.owner_id {
            Some(o) => o.clone(),
            None => current_account_id.clone(),
        };
        let ghost s0 = self@;
        let ghost d0 = s0.drop_by_id[drop_id@];
        proof {
            assert(drop_of(token_id@) == drop_id@);
        }
        let mut drop = match self.drop_by_id.remove(&drop_id) {
            Some(d) => d,
            None => {
                proof {
                    assert(false);
                }
                return Err(KeypomError::DropNotFound);
            },
        };
        let mut key = match drop.key_info_by_token_id.remove(&token_id) {
            Some(k) => k,
            None => {
                proof {
                    assert(false);
                }
                return Err(KeypomError::KeyNotFound);
            },
        };
        let approval_id = key.next_approval_id;
        key.approved_account_ids.insert(account_id.clone(), approval_id);
        key.next_approval_id = approval_id + 1;
        let ghost k2 = key@;
        drop.key_info_by_token_id.insert(token_id.clone(), key);
        proof {
            assert(drop.key_info_by_token_id@ =~= d0.key_info_by_token_id.insert(token_id@, k2));
        }
        self.drop_by_id.insert(drop_id, drop);
        proof {
            assert(self@.drop_by_id =~= approve_state(s0, token_id@, account_id@).drop_by_id);
        }
        match msg {
            Some(m) => Ok(
                Some(ApprovalCallback { account_id: account_id.clone(), token_id, owner_id: owner, approval_id, msg: m }),
            ),
            None => Ok(None),
        }
    }

    /// Whether an account is approved for a key, with the approval ID given if one is given.
    pub fn nft_is_approved(&self, token_id: &TokenId, approved_account_id: &AccountId, approval_id: Option<u64>) -> (r:
        Result<bool, KeypomError>)
        ensures
            match lookup_error(self@, token_id@) {
                Some(e) => r matches Err(x) && x == e,
                None => {
                    let k = key_of(self@, token_id@);
                    r matches Ok(b) && b == (k.approved_account_ids.contains_key(approved_account_id@) && match approval_id {
                        Some(a) => a == k.approved_account_ids[approved_account_id@],
                        None => true,
                    })
                },
            },
    {
        if !has_colon(token_id) {
            return Err(KeypomError::InvalidTokenId);
        }
        let (drop_id, _key_id) = match parse_token_id(token_id) {
            Ok(p) => p,
            Err(_) => {
                return Err(KeypomError::InvalidTokenId);
            },
        };
        let drop_ref = match self.drop_by_id.get(&drop_id) {
            Some(d) => d,
            None => {
                return Err(KeypomError::DropNotFound);
            },
        };
        let key_ref = match drop_ref.key_info_by_token_id.get(token_id) {
            Some(k) => k,
            None => {
                return Err(KeypomError::KeyNotFound);
            },
        };
        match key_ref.approved_account_ids.get(approved_account_id) {
            Some(actual) => match approval_id {
                Some(a) => Ok(a == *actual),
                None => Ok(true),
            },
            None => Ok(false),
        }
    }

    /// The number of keys registered with the contract.
    pub fn nft_total_supply(&self) -> (n: u128)
        ensures
            n == self@.token_id_by_pk.dom().len(),
    {
        self.token_id_by_pk.len() as u128
    }

    /// The number of keys an account owns.
    pub fn nft_supply_for_owner(&self, account_id: &AccountId) -> (n: u128)
        ensures
            n == set_or_empty(self@.tokens_per_owner, account_id@).dom().len(),
    {
        match self.tokens_per_owner.get(account_id) {
            Some(s) => s.len() as u128,
            None => 0,
        }
    }
}

/// The page of a sequence that starts at `start` and holds at most `limit` items.
pub open spec fn page<A>(s: Seq<A>, start: int, limit: int) -> Seq<A> {
    if start >= s.len() {
        Seq::empty()
    } else if start + limit >= s.len() {
        s.subrange(start, s.len() as int)
    } else {
        s.subrange(start, start + limit)
    }
}

/// The token IDs of a map of public keys, in storage order.
pub open spec fn tokens_in_order(m: StrMap<TokenId>) -> Seq<Seq<char>> {
    Seq::new(m.key_seq().len(), |i: int| m@[m.key_seq()[i]])
}

/// Read a page of the values of a map of token IDs.
fn page_of_values(m: &StrMap<TokenId>, start: usize, limit: usize) -> (r: Vec<TokenId>)
    ensures
        str_seq(r@) == page(tokens_in_order(*m), start as int, limit as int),
{
    let n = m.len();
    let ghost all = tokens_in_order(*m);
    let mut r: Vec<TokenId> = Vec::new();
    if start >= n {
        proof {
            assert(str_seq(r@) =~= Seq::<Seq<char>>::empty());
        }
        return r;
    }
    let end = if limit >= n - start {
        n
    } else {
        start + limit
    };
    let mut i = start;
    proof {
        assert(str_seq(r@) =~= all.subrange(start as int, start as int));
    }
    while i < end
        invariant
            n == m.key_seq().len(),
            all == tokens_in_order(*m),
            start <= i <= end <= n,
            str_seq(r@) == all.subrange(start as int, i as int),
        decreases end - i,
    {
        let v = m.value_at(i).clone();
        let ghost before = r@;
        r.push(v);
        proof {
            assert(str_seq(r@) =~= str_seq(before).push(v@));
            assert(str_seq(r@) =~= all.subrange(start as int, i + 1));
        }
        i = i + 1;
    }
    r
}

/// The keys of a set in storage order.
pub open spec fn set_in_order(m: StrMap<()>) -> Seq<Seq<char>> {
    m.key_seq()
}

/// Read a page of the keys of a set.
fn page_of_keys(m: &StrMap<()>, start: usize, limit: usize) -> (r: Vec<TokenId>)
    ensures
        str_seq(r@) == page(set_in_order(*m), start as int, limit as int),
{
    let n = m.len();
    let ghost all = set_in_order(*m);
    let mut r: Vec<TokenId> = Vec::new();
    if start >= n {
        proof {
            assert(str_seq(r@) =~= Seq::<Seq<char>>::empty());
        }
        return r;
    }
    let end = if limit >= n - start {
        n
    } else {
        start + limit
    };
    let mut i = start;
    proof {
        assert(str_seq(r@) =~= all.subrange(start as int, start as int));
    }
    while i < end
        invariant
            n == m.key_seq().len(),
            all == set_in_order(*m),
            start <= i <= end <= n,
            str_seq(r@) == all.subrange(start as int, i as int),
        decreases end - i,
    {
        let v = m.key_at(i).clone();
        let ghost before = r@;
        r.push(v);
        proof {
            assert(str_seq(r@) =~= str_seq(before).push(v@));
            assert(str_seq(r@) =~= all.subrange(start as int, i + 1));
        }
        i = i + 1;
    }
    r
}

/// An index or a limit as a `usize`, saturating.
fn to_usize(x: u128) -> (r: usize)
    ensures
        r == (if x > usize::MAX {
            usize::MAX as int
        } else {
            x as int
        }),
{
    if x > usize::MAX as u128 {
        usize::MAX
    } else {
        x as usize
    }
}

impl Keypom {
    /// A page of the token IDs of all keys, in storage order: from `from_index` (0 by default),
    /// at most `limit` (50 by default).
    pub fn nft_tokens(&self, from_index: Option<u128>, limit: Option<u64>) -> (r: Vec<TokenId>)
        ensures
            ({
                let start = match from_index {
                    Some(f) => if f > usize::MAX {
                        usize::MAX as int
                    } else {
                        f as int
                    },
                    None => 0,
                };
                let lim = match limit {
                    Some(l) => if l > usize::MAX {
                        usize::MAX as int
                    } else {
                        l as int
                    },
                    None => 50,
                };
                str_seq(r@) == page(tokens_in_order(self.token_id_by_pk), start, lim)
            }),
    {
        let start = to_usize(from_index.unwrap_or(0));
        let lim = to_usize(limit.unwrap_or(50) as u128);
        page_of_values(&self.token_id_by_pk, start, lim)
    }

    /// A page of the token IDs an account owns, in storage order: from `from_index` (0 by
    /// default), at most `limit` (50 by default); none for an account without keys.
    pub fn nft_tokens_for_owner(&self, account_id: &AccountId, from_index: Option<u128>, limit: Option<u64>) -> (r:
        Vec<TokenId>)
        ensures
            !self@.tokens_per_owner.contains_key(account_id@) ==> r@.len() == 0,
            self@.tokens_per_owner.contains_key(account_id@) ==> ({
                let start = match from_index {
                    Some(f) => if f > usize::MAX {
                        usize::MAX as int
                    } else {
                        f as int
                    },
                    None => 0,
                };
                let lim = match limit {
                    Some(l) => if l > usize::MAX {
                        usize::MAX as int
                    } else {
                        l as int
                    },
                    None => 50,
                };
                str_seq(r@) == page(set_in_order(self.tokens_per_owner.value_of(account_id@)), start, lim)
            }),
    {
        match self.tokens_per_owner.get(account_id) {
            Some(set) => {
                let start = to_usize(from_index.unwrap_or(0));
                let lim = to_usize(limit.unwrap_or(50) as u128);
                page_of_keys(set, start, lim)
            },
            None => Vec::new(),
        }
    }
}


/// An approval gives the account the key's next approval ID and advances it by one, so that two
/// approvals of a key in a row give two accounts different IDs (the first the old next ID, the
/// second one more).
pub proof fn lemma_approvals_get_distinct_ids(s: KeypomView, t: Seq<char>, a: Seq<char>, b: Seq<char>)
    requires
        key_of(s, t).next_approval_id < u64::MAX - 1,
        a != b,
    ensures
        key_of(approve_state(s, t, a), t).next_approval_id == key_of(s, t).next_approval_id + 1,
        key_of(approve_state(s, t, a), t).approved_account_ids[a] == key_of(s, t).next_approval_id,
        key_of(approve_state(approve_state(s, t, a), t, b), t).approved_account_ids[a] == key_of(
            s,
            t,
        ).next_approval_id,
        key_of(approve_state(approve_state(s, t, a), t, b), t).approved_account_ids[b] == key_of(
            s,
            t,
        ).next_approval_id + 1,
        key_of(approve_state(approve_state(s, t, a), t, b), t).next_approval_id == key_of(s, t).next_approval_id
            + 2,
{
}

} // verus!
