//! The events the contract logs: drops created and deleted, keys added, deleted, claimed and
//! transferred.

use vstd::prelude::*;
use crate::assets::ExtAsset;
use crate::state::{DropView, InternalDrop};
use crate::strmap::StrMap;
use crate::types::{AccountId, DropId, PublicKey, TokenId};

verus! {

/// Name of the events standard, `keypom`.
pub open spec fn standard_name() -> Seq<char> {
    seq!['k', 'e', 'y', 'p', 'o', 'm']
}

/// Version of the events standard, `1.0.0`.
pub open spec fn standard_version() -> Seq<char> {
    seq!['1', '.', '0', '.', '0']
}

/// A drop was created or deleted.
pub struct CreateOrDeleteDropLog {
    pub funder_id: String,
    pub drop_id: String,
}

/// A key was added to or deleted from a drop.
pub struct AddOrDeleteKeyLog {
    pub drop_id: String,
    pub public_key: String,
}

/// A key was transferred: its public key rotated, perhaps to a new owner.
pub struct TransferKeyLog {
    /// The approved account that made the transfer, if it was not the owner.
    pub authorized_id: Option<String>,
    pub old_owner_id: String,
    pub new_owner_id: String,
    pub old_public_key: String,
    pub new_public_key: String,
    pub drop_id: String,
    pub token_id: String,
}

/// A key was used to call `claim`.
pub struct ClaimLog {
    pub account_id: String,
    pub drop_id: String,
    pub public_key: String,
    /// The assets of the use that was claimed.
    pub assets: Vec<Option<ExtAsset>>,
}

/// A key was used to call `create_account_and_claim`.
pub struct CreateAccountAndClaimLog {
    pub new_account_id: String,
    pub new_public_key: String,
    pub public_key: String,
    pub drop_id: String,
    /// The assets of the use that was claimed.
    pub assets: Vec<Option<ExtAsset>>,
}

/// What happened.
pub enum EventLogVariant {
    DropCreation(CreateOrDeleteDropLog),
    DropDeletion(CreateOrDeleteDropLog),
    Claim(ClaimLog),
    CreateAccountAndClaim(CreateAccountAndClaimLog),
    AddKey(Vec<AddOrDeleteKeyLog>),
    DeleteKey(Vec<AddOrDeleteKeyLog>),
    KeyTransfer(TransferKeyLog),
}

/// An event with the standard it follows.
pub struct EventLog {
    pub standard: String,
    pub version: String,
    pub event: EventLogVariant,
}

impl EventLog {
    /// An event under the contract's own standard and version.
    pub fn keypom(event: EventLogVariant) -> (r: EventLog)
        ensures
            r.standard@ == standard_name(),
            r.version@ == standard_version(),
            r.event == event,
    {
        proof {
            reveal_strlit("keypom");
            reveal_strlit("1.0.0");
        }
        EventLog { standard: String::from_str("keypom"), version: String::from_str("1.0.0"), event }
    }
}

/// The event of a drop's creation.
pub fn drop_creation_event(funder_id: &AccountId, drop_id: &DropId) -> (r: EventLog)
    ensures
        r.standard@ == standard_name(),
        r.event matches EventLogVariant::DropCreation(l) && l.funder_id@ == funder_id@ && l.drop_id@
            == drop_id@,
{
    EventLog::keypom(
        EventLogVariant::DropCreation(
            CreateOrDeleteDropLog { funder_id: funder_id.clone(), drop_id: drop_id.clone() },
        ),
    )
}

/// One log per public key of keys added to or deleted from a drop, in order.
pub fn key_logs(drop_id: &DropId, public_keys: &Vec<PublicKey>) -> (r: Vec<AddOrDeleteKeyLog>)
    ensures
        r@.len() == public_keys@.len(),
        forall|i: int|
            0 <= i < r@.len() ==> (#[trigger] r@[i]).drop_id@ == drop_id@ && r@[i].public_key@
                == public_keys@[i]@,
{
    let mut out: Vec<AddOrDeleteKeyLog> = Vec::new();
    let mut i: usize = 0;
    while i < public_keys.len()
        invariant
            i <= public_keys@.len(),
            out@.len() == i,
            forall|k: int|
                0 <= k < i ==> (#[trigger] out@[k]).drop_id@ == drop_id@ && out@[k].public_key@
                    == public_keys@[k]@,
        decreases public_keys@.len() - i,
    {
        out.push(AddOrDeleteKeyLog { drop_id: drop_id.clone(), public_key: public_keys[i].clone() });
        i = i + 1;
    }
    out
}

/// The event of a claim: `create_account_and_claim` where a new public key is given, else
/// `claim`.
pub fn claim_event(
    receiver_id: &AccountId,
    signer_pk: &PublicKey,
    drop_id: &DropId,
    assets: Vec<Option<ExtAsset>>,
    new_public_key: &Option<PublicKey>,
) -> (r: EventLog)
    ensures
        r.standard@ == standard_name(),
        r.version@ == standard_version(),
        match *new_public_key {
            Some(pk) => r.event matches EventLogVariant::CreateAccountAndClaim(l) && l.new_account_id@
                == receiver_id@ && l.new_public_key@ == pk@ && l.public_key@ == signer_pk@
                && l.drop_id@ == drop_id@ && l.assets@ == assets@,
            None => r.event matches EventLogVariant::Claim(l) && l.account_id@ == receiver_id@
                && l.public_key@ == signer_pk@ && l.drop_id@ == drop_id@ && l.assets@ == assets@,
        },
{
    match new_public_key {
        Some(pk) => EventLog::keypom(
            EventLogVariant::CreateAccountAndClaim(
                CreateAccountAndClaimLog {
                    new_account_id: receiver_id.clone(),
                    new_public_key: pk.clone(),
                    public_key: signer_pk.clone(),
                    drop_id: drop_id.clone(),
                    assets,
                },
            ),
        ),
        None => EventLog::keypom(
            EventLogVariant::Claim(
                ClaimLog {
                    account_id: receiver_id.clone(),
                    public_key: signer_pk.clone(),
                    drop_id: drop_id.clone(),
                    assets,
                },
            ),
        ),
    }
}

/// The event of a key transfer. The new owner is the receiver, or the contract itself when
/// there is none; an approved sender is named as the authorized account.
pub fn key_transfer_event(
    sender_id: &AccountId,
    approved: bool,
    old_owner_id: &AccountId,
    receiver_id: &Option<AccountId>,
    current_account_id: &AccountId,
    old_public_key: &PublicKey,
    new_public_key: &PublicKey,
    drop_id: &DropId,
    token_id: &TokenId,
) -> (r: EventLog)
    ensures
        r.standard@ == standard_name(),
        r.event matches EventLogVariant::KeyTransfer(l) && {
            &&& (approved ==> (l.authorized_id matches Some(a) && a@ == sender_id@))
            &&& (!approved ==> l.authorized_id is None)
            &&& l.old_owner_id@ == old_owner_id@
            &&& l.new_owner_id@ == match *receiver_id {
                Some(a) => a@,
                None => current_account_id@,
            }
            &&& l.old_public_key@ == old_public_key@
            &&& l.new_public_key@ == new_public_key@
            &&& l.drop_id@ == drop_id@
            &&& l.token_id@ == token_id@
        },
{
    let new_owner_id = match receiver_id {
        Some(a) => a.clone(),
        None => current_account_id.clone(),
    };
    EventLog::keypom(
        EventLogVariant::KeyTransfer(
            TransferKeyLog {
                authorized_id: if approved {
                    Some(sender_id.clone())
                } else {
                    None
                },
                old_owner_id: old_owner_id.clone(),
                new_owner_id,
                old_public_key: old_public_key.clone(),
                new_public_key: new_public_key.clone(),
                drop_id: drop_id.clone(),
                token_id: token_id.clone(),
            },
        ),
    )
}

/// Empty a drop of its assets before it is deleted, and log the deletion.
pub fn internal_clear_drop_storage(drop: &mut InternalDrop, event_logs: &mut Vec<EventLog>, drop_id: &DropId)
    ensures
        final(drop)@ == (DropView { asset_by_id: Map::empty(), ..old(drop)@ }),
        final(event_logs)@.len() == old(event_logs)@.len() + 1,
        final(event_logs)@.take(old(event_logs)@.len() as int) == old(event_logs)@,
        final(event_logs)@.last().standard@ == standard_name(),
        final(event_logs)@.last().event matches EventLogVariant::DropDeletion(l) && l.funder_id@
            == old(drop)@.funder_id && l.drop_id@ == drop_id@,
{
    drop.asset_by_id = StrMap::new();
    let e = EventLog::keypom(
        EventLogVariant::DropDeletion(
            CreateOrDeleteDropLog { funder_id: drop.funder_id.clone(), drop_id: drop_id.clone() },
        ),
    );
    let ghost before = event_logs@;
    event_logs.push(e);
    proof {
        assert(event_logs@.take(before.len() as int) =~= before);
    }
}

} // verus!
