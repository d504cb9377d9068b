//! The assets a key use can carry: fungible tokens, non-fungible tokens, function calls, $NEAR,
//! or nothing. External forms come in and go out of the contract; internal forms are stored.

use vstd::prelude::*;
use crate::types::{
    AccountId, AssetId, Balance, Gas, KeypomInjectedArgs, TokenId, GAS_FOR_FC_CLAIM_LOGIC,
    GAS_FOR_FT_CLAIM_LOGIC, GAS_FOR_NEAR_TRANSFER, GAS_FOR_NFT_CLAIM_LOGIC, GAS_FOR_NONE_ASSET,
    MIN_BASE_GAS_FOR_RECEIPT_SPIN_UP, MIN_GAS_FOR_FT_TRANSFER, MIN_GAS_FOR_NFT_CALLBACK_LOGIC,
    MIN_GAS_FOR_NFT_TRANSFER, MIN_GAS_FOR_STORAGE_DEPOSIT,
};

verus! {

/// Asset ID of the null asset.
pub open spec fn none_asset_id() -> Seq<char> {
    seq!['n', 'o', 'n', 'e', '-', 'a', 's', 's', 'e', 't']
}

/// Asset ID of the $NEAR asset.
pub open spec fn near_asset_id() -> Seq<char> {
    seq!['n', 'e', 'a', 'r']
}

/// Asset ID that an external function call asset reports for itself.
pub open spec fn fallback_fc_asset_id() -> Seq<char> {
    seq!['f', 'c']
}

/// Prefix of the asset IDs under which function call assets are stored.
pub open spec fn fc_asset_prefix() -> Seq<char> {
    seq!['f', 'c', '&']
}

/// The text `none-asset`.
pub fn none_asset_id_string() -> (s: String)
    ensures
        s@ == none_asset_id(),
{
    proof {
        reveal_strlit("none-asset");
    }
    String::from_str("none-asset")
}

/// The text `near`.
pub fn near_asset_id_string() -> (s: String)
    ensures
        s@ == near_asset_id(),
{
    proof {
        reveal_strlit("near");
    }
    String::from_str("near")
}

/// Fungible token data stored for a drop.
pub struct InternalFTData {
    /// Account ID of the token contract.
    pub contract_id: AccountId,
    /// Tokens available for transfer (sent in through `ft_transfer_call`).
    pub balance_avail: Balance,
    /// Cost of registering a new user on the token contract.
    pub registration_cost: Balance,
}

impl View for InternalFTData {
    type V = InternalFTData;

    open spec fn view(&self) -> InternalFTData {
        *self
    }
}

impl InternalFTData {
    /// New fungible token data with nothing available yet.
    pub fn new(contract_id: AccountId, registration_cost: Balance) -> (r: Self)
        ensures
            r.contract_id == contract_id,
            r.balance_avail == 0,
            r.registration_cost == registration_cost,
    {
        InternalFTData { contract_id, balance_avail: 0, registration_cost }
    }

    /// $NEAR that must have been deposited for one claim.
    pub fn required_near_for_claim(&self) -> (r: Balance)
        ensures
            r == self.registration_cost,
    {
        self.registration_cost
    }

    /// Whether enough tokens are available to transfer the amount.
    pub fn enough_balance(&self, amount: &Balance) -> (b: bool)
        ensures
            b == (self.balance_avail >= *amount),
    {
        self.balance_avail >= *amount
    }

    /// The asset ID of fungible tokens: their contract.
    pub fn get_asset_id(&self) -> (r: AssetId)
        ensures
            r@ == self.contract_id@,
    {
        self.contract_id.clone()
    }

    /// The unique data ID of this fungible token data: its contract.
    pub fn get_data_id(&self) -> (r: String)
        ensures
            r@ == self.contract_id@,
    {
        self.contract_id.clone()
    }

    /// Gas needed for one claim.
    pub fn get_required_gas_for_claim(&self) -> (g: Gas)
        ensures
            g == GAS_FOR_FT_CLAIM_LOGIC + MIN_GAS_FOR_FT_TRANSFER + MIN_GAS_FOR_STORAGE_DEPOSIT,
    {
        GAS_FOR_FT_CLAIM_LOGIC + MIN_GAS_FOR_FT_TRANSFER + MIN_GAS_FOR_STORAGE_DEPOSIT
    }

    /// Make more tokens available (after a deposit, or a failed transfer's refund).
    pub fn add_to_balance_avail(&mut self, amount: &Balance)
        requires
            old(self).balance_avail + *amount <= u128::MAX,
        ensures
            final(self).balance_avail == old(self).balance_avail + *amount,
            final(self).contract_id == old(self).contract_id,
            final(self).registration_cost == old(self).registration_cost,
    {
        self.balance_avail = self.balance_avail + *amount;
    }

    /// Take tokens out for a claim. When not enough are available nothing is claimed.
    pub fn claim_ft_asset(&mut self, receiver_id: &AccountId, amount: &Balance) -> (r: Option<
        AssetClaim,
    >)
        ensures
            old(self).balance_avail >= *amount ==> {
                &&& final(self).balance_avail == old(self).balance_avail - *amount
                &&& r == Some(
                    AssetClaim::FungibleToken {
                        contract_id: old(self).contract_id,
                        receiver_id: *receiver_id,
                        amount: *amount,
                        registration_cost: old(self).registration_cost,
                    },
                )
            },
            old(self).balance_avail < *amount ==> r is None && final(self).balance_avail == old(
                self,
            ).balance_avail,
            final(self).contract_id == old(self).contract_id,
            final(self).registration_cost == old(self).registration_cost,
    {
        if self.enough_balance(amount) {
            self.balance_avail = self.balance_avail - *amount;
            Some(
                AssetClaim::FungibleToken {
                    contract_id: self.contract_id.clone(),
                    receiver_id: receiver_id.clone(),
                    amount: *amount,
                    registration_cost: self.registration_cost,
                },
            )
        } else {
            None
        }
    }
}

/// Non-fungible token data stored for a drop: the tokens available for claims.
pub struct InternalNFTData {
    /// Account ID of the token contract.
    pub contract_id: AccountId,
    /// Token IDs sent in and not yet claimed; claims take from the end.
    pub token_ids: Vec<TokenId>,
}

/// View of non-fungible token data.
pub struct NFTDataView {
    pub contract_id: Seq<char>,
    pub token_ids: Seq<Seq<char>>,
}

/// The views of a vector of strings.
pub open spec fn str_seq(v: Seq<String>) -> Seq<Seq<char>> {
    v.map_values(|s: String| s@)
}

impl View for InternalNFTData {
    type V = NFTDataView;

    open spec fn view(&self) -> NFTDataView {
        NFTDataView { contract_id: self.contract_id@, token_ids: str_seq(self.token_ids@) }
    }
}

impl InternalNFTData {
    /// New non-fungible token data without tokens.
    pub fn new(contract_id: AccountId) -> (r: Self)
        ensures
            r@.contract_id == contract_id@,
            r@.token_ids == Seq::<Seq<char>>::empty(),
    {
        let r = InternalNFTData { contract_id, token_ids: Vec::new() };
        assert(r@.token_ids =~= Seq::<Seq<char>>::empty());
        r
    }

    /// Make one more token available for claims.
    pub fn add_to_token_ids(&mut self, token_id: &TokenId)
        ensures
            final(self)@.token_ids == old(self)@.token_ids.push(token_id@),
            final(self)@.contract_id == old(self)@.contract_id,
    {
        self.token_ids.push(token_id.clone());
        assert(self@.token_ids =~= old(self)@.token_ids.push(token_id@));
    }

    /// Whether no token is left.
    pub fn is_empty(&self) -> (b: bool)
        ensures
            b == (self@.token_ids.len() == 0),
    {
        self.token_ids.len() == 0
    }

    /// The token the next claim would transfer.
    pub fn get_next_token_id(&self) -> (r: Option<TokenId>)
        ensures
            self@.token_ids.len() == 0 ==> r is None,
            self@.token_ids.len() > 0 ==> (r matches Some(t) && t@ == self@.token_ids.last()),
    {
        let n = self.token_ids.len();
        if n == 0 {
            None
        } else {
            Some(self.token_ids[n - 1].clone())
        }
    }

    /// Gas needed for one claim.
    pub fn get_required_gas_for_claim(&self) -> (g: Gas)
        ensures
            g == GAS_FOR_NFT_CLAIM_LOGIC + MIN_GAS_FOR_NFT_TRANSFER + MIN_GAS_FOR_NFT_CALLBACK_LOGIC,
    {
        GAS_FOR_NFT_CLAIM_LOGIC + MIN_GAS_FOR_NFT_TRANSFER + MIN_GAS_FOR_NFT_CALLBACK_LOGIC
    }

    /// Take the last available token out for a claim; nothing is claimed when none is left.
    pub fn claim_nft_asset(&mut self, receiver_id: &AccountId) -> (r: Option<AssetClaim>)
        ensures
            old(self)@.token_ids.len() == 0 ==> r is None && final(self)@ == old(self)@,
            old(self)@.token_ids.len() > 0 ==> {
                &&& final(self)@.token_ids == old(self)@.token_ids.drop_last()
                &&& r matches Some(AssetClaim::NonFungibleToken { contract_id, receiver_id: rid, token_id })
                    && contract_id@ == old(self)@.contract_id && rid@ == receiver_id@ && token_id@
                    == old(self)@.token_ids.last()
            },
            final(self)@.contract_id == old(self)@.contract_id,
    {
        match self.token_ids.pop() {
            Some(t) => {
                assert(self@.token_ids =~= old(self)@.token_ids.drop_last());
                Some(
                    AssetClaim::NonFungibleToken {
                        contract_id: self.contract_id.clone(),
                        receiver_id: receiver_id.clone(),
                        token_id: t,
                    },
                )
            },
            None => None,
        }
    }

    /// Remove the given tokens to send them back to the funder; the transfers to perform are
    /// returned in the order given.
    pub fn nft_refund(&mut self, refund_to: &AccountId, token_ids: Vec<TokenId>) -> (r: AssetClaim)
        requires
            forall|i: int|
                0 <= i < token_ids@.len() ==> remaining_after(
                    old(self)@.token_ids,
                    str_seq(token_ids@).take(i),
                ).contains(#[trigger] token_ids@[i]@),
        ensures
            final(self)@.token_ids == remaining_after(old(self)@.token_ids, str_seq(token_ids@)),
            final(self)@.contract_id == old(self)@.contract_id,
            r matches AssetClaim::NftRefund { contract_id, receiver_id, token_ids: ts } && contract_id@
                == old(self)@.contract_id && receiver_id@ == refund_to@ && str_seq(ts@) == str_seq(
                token_ids@,
            ),
    {
        let n = token_ids.len();
        let mut i: usize = 0;
        while i < n
            invariant
                n == token_ids@.len(),
                i <= n,
                self@.contract_id == old(self)@.contract_id,
                self@.token_ids == remaining_after(old(self)@.token_ids, str_seq(token_ids@).take(i as int)),
                forall|j: int|
                    0 <= j < token_ids@.len() ==> remaining_after(
                        old(self)@.token_ids,
                        str_seq(token_ids@).take(j),
                    ).contains(#[trigger] token_ids@[j]@),
            decreases n - i,
        {
            let idx = self.position_of(&token_ids[i]);
            let ghost before = self@.token_ids;
            self.token_ids.remove(idx);
            proof {
                let prefix = str_seq(token_ids@).take(i as int);
                let next = str_seq(token_ids@).take(i + 1);
                assert(next.drop_last() =~= prefix);
                assert(next.last() == token_ids@[i as int]@);
                lemma_first_index_in(before, token_ids@[i as int]@, idx as int);
                assert(self@.token_ids =~= before.remove(idx as int));
            }
            i = i + 1;
        }
        proof {
            assert(str_seq(token_ids@).take(n as int) =~= str_seq(token_ids@));
        }
        AssetClaim::NftRefund { contract_id: self.contract_id.clone(), receiver_id: refund_to.clone(), token_ids }
    }

    /// Position of the first occurrence of a token, if it is there.
    fn find_token(&self, token_id: &TokenId) -> (r: Option<usize>)
        ensures
            match r {
                Some(idx) => idx < self@.token_ids.len() && self@.token_ids[idx as int] == token_id@
                    && forall|k: int| 0 <= k < idx ==> self@.token_ids[k] != token_id@,
                None => !self@.token_ids.contains(token_id@),
            },
    {
        let n = self.token_ids.len();
        let mut i: usize = 0;
        while i < n
            invariant
                n == self@.token_ids.len(),
                i <= n,
                forall|k: int| 0 <= k < i ==> self@.token_ids[k] != token_id@,
            decreases n - i,
        {
            if self.token_ids[i] == *token_id {
                return Some(i);
            }
            i = i + 1;
        }
        None
    }

    /// Whether the given tokens can be taken out one after the other (each is still there when its
    /// turn comes).
    #[verifier::rlimit(40)]
    pub fn can_refund(&self, token_ids: &Vec<TokenId>) -> (b: bool)
        ensures
            b == forall|i: int|
                0 <= i < token_ids@.len() ==> remaining_after(self@.token_ids, str_seq(token_ids@).take(i)).contains(
                    #[trigger] token_ids@[i]@,
                ),
    {
        let mut copy: Vec<TokenId> = Vec::new();
        let mut j: usize = 0;
        while j < self.token_ids.len()
            invariant
                j <= self.token_ids@.len(),
                str_seq(copy@) == str_seq(self.token_ids@).take(j as int),
            decreases self.token_ids@.len() - j,
        {
            let t = self.token_ids[j].clone();
            let ghost before = copy@;
            copy.push(t);
            proof {
                assert(str_seq(copy@) =~= str_seq(before).push(t@));
                assert(str_seq(copy@) =~= str_seq(self.token_ids@).take(j + 1));
            }
            j = j + 1;
        }
        proof {
            assert(str_seq(self.token_ids@).take(self.token_ids@.len() as int) =~= str_seq(self.token_ids@));
        }
        let mut sim = InternalNFTData { contract_id: self.contract_id.clone(), token_ids: copy };
        let n = token_ids.len();
        let mut i: usize = 0;
        while i < n
            invariant
                n == token_ids@.len(),
                i <= n,
                sim@.token_ids == remaining_after(self@.token_ids, str_seq(token_ids@).take(i as int)),
                forall|q: int|
                    0 <= q < i ==> remaining_after(self@.token_ids, str_seq(token_ids@).take(q)).contains(
                        #[trigger] token_ids@[q]@,
                    ),
            decreases n - i,
        {
            let ghost prefix = str_seq(token_ids@).take(i as int);
            let ghost next = str_seq(token_ids@).take(i + 1);
            proof {
                assert(next.drop_last() =~= prefix);
                assert(next.last() == token_ids@[i as int]@);
            }
            match sim.find_token(&token_ids[i]) {
                None => {
                    proof {
                        assert(!remaining_after(self@.token_ids, prefix).contains(token_ids@[i as int]@));
                    }
                    return false;
                },
                Some(idx) => {
                    let ghost before = sim@.token_ids;
                    sim.token_ids.remove(idx);
                    proof {
                        lemma_first_index_in(before, token_ids@[i as int]@, idx as int);
                        assert(sim@.token_ids =~= before.remove(idx as int));
                        assert(before[idx as int] == token_ids@[i as int]@);
                        assert(before.contains(token_ids@[i as int]@));
                        assert(remaining_after(self@.token_ids, next) == remove_first(before, token_ids@[i as int]@));
                    }
                },
            }
            i = i + 1;
        }
        true
    }

    /// Position of the first occurrence of a token.
    fn position_of(&self, token_id: &TokenId) -> (idx: usize)
        requires
            self@.token_ids.contains(token_id@),
        ensures
            idx < self@.token_ids.len(),
            self@.token_ids[idx as int] == token_id@,
            forall|k: int| 0 <= k < idx ==> self@.token_ids[k] != token_id@,
    {
        let n = self.token_ids.len();
        let mut i: usize = 0;
        while i < n
            invariant
                n == self@.token_ids.len(),
                i <= n,
                self@.token_ids.contains(token_id@),
                forall|k: int| 0 <= k < i ==> self@.token_ids[k] != token_id@,
            decreases n - i,
        {
            if self.token_ids[i] == *token_id {
                return i;
            }
            i = i + 1;
        }
        proof {
            let w = choose|w: int| 0 <= w < self@.token_ids.len() && self@.token_ids[w] == token_id@;
            assert(self@.token_ids[w] != token_id@);
        }
        0
    }
}

/// Remove the first occurrence of an element.
pub open spec fn remove_first(s: Seq<Seq<char>>, x: Seq<char>) -> Seq<Seq<char>>
    decreases s.len(),
{
    if s.len() == 0 {
        s
    } else if s[0] == x {
        s.drop_first()
    } else {
        seq![s[0]] + remove_first(s.drop_first(), x)
    }
}

/// What is left of a sequence after removing the first occurrence of each element of another,
/// in order.
pub open spec fn remaining_after(s: Seq<Seq<char>>, removed: Seq<Seq<char>>) -> Seq<Seq<char>>
    decreases removed.len(),
{
    if removed.len() == 0 {
        s
    } else {
        remove_first(remaining_after(s, removed.drop_last()), removed.last())
    }
}

/// Removing the first occurrence is removing at its position.
pub proof fn lemma_first_index_in(s: Seq<Seq<char>>, x: Seq<char>, idx: int)
    requires
        0 <= idx < s.len(),
        s[idx] == x,
        forall|k: int| 0 <= k < idx ==> s[k] != x,
    ensures
        remove_first(s, x) == s.remove(idx),
    decreases s.len(),
{
    if idx == 0 {
        assert(s.drop_first() =~= s.remove(0));
    } else {
        assert forall|k: int| 0 <= k < idx - 1 implies s.drop_first()[k] != x by {
            assert(s.drop_first()[k] == s[k + 1]);
        }
        lemma_first_index_in(s.drop_first(), x, idx - 1);
        assert(seq![s[0]] + s.drop_first().remove(idx - 1) =~= s.remove(idx));
    }
}

/// What the claiming user may do with function call arguments.
#[derive(Clone, Copy, Debug, PartialEq, Eq, Structural)]
pub enum UserArgsRule {
    /// User arguments replace the funder's entirely.
    AllUser,
    /// Arguments are merged; on duplicate keys the funder's win.
    FunderPreferred,
    /// Arguments are merged; on duplicate keys the user's win.
    UserPreferred,
}

/// One method call of a function call asset.
pub struct MethodData {
    /// Contract that will be called.
    pub receiver_id: String,
    /// Method to call on the receiver.
    pub method_name: String,
    /// Arguments (stringified JSON).
    pub args: String,
    /// YoctoNEAR attached to the call.
    pub attached_deposit: Balance,
    /// Gas attached to the call.
    pub attached_gas: Gas,
    /// Keypom arguments to inject.
    pub keypom_args: Option<KeypomInjectedArgs>,
    /// Whether the claiming account becomes the receiver.
    pub receiver_to_claimer: Option<bool>,
    /// What the user may do with the arguments.
    pub user_args_rule: Option<UserArgsRule>,
}

impl MethodData {
    /// A copy of the method.
    pub fn copy(&self) -> (r: Self)
        ensures
            r == *self,
    {
        MethodData {
            receiver_id: self.receiver_id.clone(),
            method_name: self.method_name.clone(),
            args: self.args.clone(),
            attached_deposit: self.attached_deposit,
            attached_gas: self.attached_gas,
            keypom_args: match &self.keypom_args {
                Some(a) => Some(a.copy()),
                None => None,
            },
            receiver_to_claimer: self.receiver_to_claimer,
            user_args_rule: self.user_args_rule,
        }
    }
}

/// Methods that a function call asset may not call.
pub open spec fn prohibited_methods() -> Seq<Seq<char>> {
    seq![
        "nft_transfer"@,
        "nft_transfer_call"@,
        "nft_approve"@,
        "nft_transfer_payout"@,
        "ft_transfer"@,
        "ft_transfer_call"@,
    ]
}

/// Sum of the deposits attached to a list of methods.
pub open spec fn total_deposit(ms: Seq<MethodData>) -> int
    decreases ms.len(),
{
    if ms.len() == 0 {
        0
    } else {
        total_deposit(ms.drop_last()) + ms.last().attached_deposit
    }
}

/// Sum of the gas attached to a list of methods.
pub open spec fn total_gas(ms: Seq<MethodData>) -> int
    decreases ms.len(),
{
    if ms.len() == 0 {
        0
    } else {
        total_gas(ms.drop_last()) + ms.last().attached_gas
    }
}

/// Gas one claim of a function call asset needs: the methods' gas, one receipt each, and the
/// claim logic.
pub open spec fn fc_required_gas(ms: Seq<MethodData>) -> int {
    total_gas(ms) + MIN_BASE_GAS_FOR_RECEIPT_SPIN_UP * ms.len() + GAS_FOR_FC_CLAIM_LOGIC
}

/// Why a function call asset is refused.
#[derive(Debug, PartialEq, Eq, Structural)]
pub enum FcError {
    /// The asset has no method.
    NoMethods,
    /// A method is on the prohibited list.
    ProhibitedMethod,
    /// A method would call the Keypom contract itself.
    ReceiverIsKeypom,
}

/// Function call data stored for a drop.
pub struct FCData {
    /// Methods called, one after the other, on each claim.
    pub methods: Vec<MethodData>,
}

impl View for FCData {
    type V = Seq<MethodData>;

    open spec fn view(&self) -> Seq<MethodData> {
        self.methods@
    }
}

/// Whether a list of methods is acceptable for a function call asset.
pub open spec fn fc_methods_valid(ms: Seq<MethodData>, current_account: Seq<char>) -> bool {
    &&& ms.len() > 0
    &&& forall|i: int|
        0 <= i < ms.len() ==> !prohibited_methods().contains(#[trigger] ms[i].method_name@)
    &&& forall|i: int| 0 <= i < ms.len() ==> #[trigger] ms[i].receiver_id@ != current_account
}

/// Whether a method name is on the prohibited list.
pub fn is_prohibited_method(name: &String) -> (b: bool)
    ensures
        b == prohibited_methods().contains(name@),
{
    let list: [&str; 6] = [
        "nft_transfer",
        "nft_transfer_call",
        "nft_approve",
        "nft_transfer_payout",
        "ft_transfer",
        "ft_transfer_call",
    ];
    proof {
        reveal_strlit("nft_transfer");
        reveal_strlit("nft_transfer_call");
        reveal_strlit("nft_approve");
        reveal_strlit("nft_transfer_payout");
        reveal_strlit("ft_transfer");
        reveal_strlit("ft_transfer_call");
    }
    let mut i: usize = 0;
    while i < 6
        invariant
            i <= 6,
            forall|j: int| 0 <= j < 6 ==> #[trigger] list@[j]@ == prohibited_methods()[j],
            forall|j: int| 0 <= j < i ==> prohibited_methods()[j] != name@,
        decreases 6 - i,
    {
        let candidate = String::from_str(list[i]);
        if candidate == *name {
            proof {
                assert(prohibited_methods()[i as int] == name@);
            }
            return true;
        }
        i = i + 1;
    }
    proof {
        if prohibited_methods().contains(name@) {
            let j = choose|j: int| 0 <= j < prohibited_methods().len() && prohibited_methods()[j] == name@;
            assert(prohibited_methods()[j] != name@);
        }
    }
    false
}

impl FCData {
    /// Function call data for a list of methods, refused when the list is empty, a method is
    /// prohibited or a method calls the Keypom contract itself.
    pub fn new(methods: Vec<MethodData>, current_account: &AccountId) -> (r: Result<Self, FcError>)
        ensures
            fc_methods_valid(methods@, current_account@) <==> r is Ok,
            r matches Ok(d) ==> d@ == methods@,
            methods@.len() == 0 ==> r == Err::<Self, FcError>(FcError::NoMethods),
    {
        if methods.len() == 0 {
            return Err(FcError::NoMethods);
        }
        let n = methods.len();
        let mut i: usize = 0;
        while i < n
            invariant
                n == methods@.len(),
                i <= n,
                forall|j: int|
                    0 <= j < i ==> !prohibited_methods().contains(#[trigger] methods@[j].method_name@),
                forall|j: int| 0 <= j < i ==> #[trigger] methods@[j].receiver_id@ != current_account@,
            decreases n - i,
        {
            if is_prohibited_method(&methods[i].method_name) {
                return Err(FcError::ProhibitedMethod);
            }
            if methods[i].receiver_id == *current_account {
                return Err(FcError::ReceiverIsKeypom);
            }
            i = i + 1;
        }
        Ok(FCData { methods })
    }

    /// $NEAR to refund for one claim: the deposits the methods attach.
    pub fn get_yocto_refund_amount(&self) -> (r: Balance)
        requires
            total_deposit(self@) <= u128::MAX,
        ensures
            r == total_deposit(self@),
    {
        let n = self.methods.len();
        let mut total: u128 = 0;
        let mut i: usize = 0;
        while i < n
            invariant
                n == self@.len(),
                i <= n,
                total == total_deposit(self@.take(i as int)),
                total_deposit(self@) <= u128::MAX,
            decreases n - i,
        {
            proof {
                assert(self@.take(i + 1).drop_last() =~= self@.take(i as int));
                lemma_total_deposit_prefix(self@, i + 1);
            }
            total = total + self.methods[i].attached_deposit;
            i = i + 1;
        }
        proof {
            assert(self@.take(n as int) =~= self@);
        }
        total
    }

    /// Gas needed for one claim.
    pub fn get_required_gas_for_claim(&self) -> (g: Gas)
        requires
            fc_required_gas(self@) <= u64::MAX,
        ensures
            g == fc_required_gas(self@),
    {
        let n = self.methods.len();
        let mut total: u64 = 0;
        let mut i: usize = 0;
        while i < n
            invariant
                n == self@.len(),
                i <= n,
                total == total_gas(self@.take(i as int)),
                fc_required_gas(self@) <= u64::MAX,
            decreases n - i,
        {
            proof {
                assert(self@.take(i + 1).drop_last() =~= self@.take(i as int));
                lemma_total_gas_prefix(self@, i + 1);
            }
            total = total + self.methods[i].attached_gas;
            i = i + 1;
        }
        proof {
            assert(self@.take(n as int) =~= self@);
            assert(MIN_BASE_GAS_FOR_RECEIPT_SPIN_UP * n >= 0) by (nonlinear_arith);
        }
        let spin_up = MIN_BASE_GAS_FOR_RECEIPT_SPIN_UP * (n as u64);
        total + spin_up + GAS_FOR_FC_CLAIM_LOGIC
    }
}

/// Prefix sums of deposits are bounded by the total.
pub proof fn lemma_total_deposit_prefix(ms: Seq<MethodData>, k: int)
    requires
        0 <= k <= ms.len(),
    ensures
        0 <= total_deposit(ms.take(k)) <= total_deposit(ms),
    decreases ms.len() - k,
{
    lemma_total_deposit_nonneg(ms.take(k));
    if k < ms.len() {
        lemma_total_deposit_prefix(ms, k + 1);
        assert(ms.take(k + 1).drop_last() =~= ms.take(k));
    } else {
        assert(ms.take(k) =~= ms);
    }
}

pub proof fn lemma_total_deposit_nonneg(ms: Seq<MethodData>)
    ensures
        total_deposit(ms) >= 0,
    decreases ms.len(),
{
    if ms.len() > 0 {
        lemma_total_deposit_nonneg(ms.drop_last());
    }
}

/// Prefix sums of gas are bounded by the total.
pub proof fn lemma_total_gas_prefix(ms: Seq<MethodData>, k: int)
    requires
        0 <= k <= ms.len(),
    ensures
        0 <= total_gas(ms.take(k)) <= total_gas(ms),
    decreases ms.len() - k,
{
    lemma_total_gas_nonneg(ms.take(k));
    if k < ms.len() {
        lemma_total_gas_prefix(ms, k + 1);
        assert(ms.take(k + 1).drop_last() =~= ms.take(k));
    } else {
        assert(ms.take(k) =~= ms);
    }
}

pub proof fn lemma_total_gas_nonneg(ms: Seq<MethodData>)
    ensures
        total_gas(ms) >= 0,
    decreases ms.len(),
{
    if ms.len() > 0 {
        lemma_total_gas_nonneg(ms.drop_last());
    }
}

/// A transfer that a claim or a refund asks the runtime to perform.
pub enum AssetClaim {
    /// Register the receiver with `registration_cost` and transfer `amount` tokens.
    FungibleToken { contract_id: AccountId, receiver_id: AccountId, amount: Balance, registration_cost: Balance },
    /// Transfer one non-fungible token.
    NonFungibleToken { contract_id: AccountId, receiver_id: AccountId, token_id: TokenId },
    /// Send back a batch of non-fungible tokens.
    NftRefund { contract_id: AccountId, receiver_id: AccountId, token_ids: Vec<TokenId> },
    /// Transfer $NEAR.
    Near { receiver_id: AccountId, amount: Balance },
    /// Call the methods of a function call asset, one after the other.
    FunctionCalls { receiver_id: AccountId, methods: Vec<MethodData> },
}

/// The asset data kept inside the contract.
#[allow(non_camel_case_types)]
pub enum InternalAsset {
    ft(InternalFTData),
    nft(InternalNFTData),
    fc(FCData),
    near,
    none,
}

/// View of an internal asset.
#[allow(non_camel_case_types)]
pub enum AssetView {
    ft(InternalFTData),
    nft(NFTDataView),
    fc(Seq<MethodData>),
    near,
    none,
}

impl View for InternalAsset {
    type V = AssetView;

    open spec fn view(&self) -> AssetView {
        match self {
            InternalAsset::ft(d) => AssetView::ft(*d),
            InternalAsset::nft(d) => AssetView::nft(d@),
            InternalAsset::fc(d) => AssetView::fc(d@),
            InternalAsset::near => AssetView::near,
            InternalAsset::none => AssetView::none,
        }
    }
}

/// Whether an asset has nothing left that could be refunded.
pub open spec fn asset_is_empty(a: AssetView) -> bool {
    match a {
        AssetView::ft(d) => d.balance_avail < 1,
        AssetView::nft(d) => d.token_ids.len() == 0,
        _ => true,
    }
}

/// $NEAR refunded to the funder per use of an asset.
pub open spec fn asset_refund(a: AssetView, tokens_per_use: Option<u128>) -> int {
    match a {
        AssetView::ft(d) => d.registration_cost as int,
        AssetView::nft(_) => 0,
        AssetView::near => tokens_per_use.unwrap() as int,
        AssetView::fc(ms) => total_deposit(ms),
        AssetView::none => 0,
    }
}

/// Whether the refund of an asset can be computed without overflow or missing amounts.
pub open spec fn asset_refund_defined(a: AssetView, tokens_per_use: Option<u128>) -> bool {
    match a {
        AssetView::near => tokens_per_use is Some,
        AssetView::fc(ms) => total_deposit(ms) <= u128::MAX,
        _ => true,
    }
}

/// Gas one claim of an asset needs.
pub open spec fn asset_gas(a: AssetView) -> int {
    match a {
        AssetView::ft(_) => GAS_FOR_FT_CLAIM_LOGIC + MIN_GAS_FOR_FT_TRANSFER
            + MIN_GAS_FOR_STORAGE_DEPOSIT,
        AssetView::nft(_) => GAS_FOR_NFT_CLAIM_LOGIC + MIN_GAS_FOR_NFT_TRANSFER
            + MIN_GAS_FOR_NFT_CALLBACK_LOGIC,
        AssetView::fc(ms) => fc_required_gas(ms),
        AssetView::near => GAS_FOR_NEAR_TRANSFER as int,
        AssetView::none => GAS_FOR_NONE_ASSET as int,
    }
}

/// Whether the gas of an asset fits a `u64`.
pub open spec fn asset_gas_defined(a: AssetView) -> bool {
    match a {
        AssetView::fc(ms) => fc_required_gas(ms) <= u64::MAX,
        _ => true,
    }
}

/// Data of an external $NEAR asset.
#[derive(Clone, Copy, Debug, PartialEq, Eq, Structural)]
pub struct ExtNEARData {
    /// YoctoNEAR transferred per claim.
    pub yoctonear: Balance,
}

/// Data of an external fungible token asset.
pub struct ExtFTData {
    /// The token contract.
    pub ft_contract_id: AccountId,
    /// Cost of registering a new user on the token contract.
    pub registration_cost: Balance,
    /// Tokens transferred per claim.
    pub ft_amount: Balance,
}

/// Data of an external non-fungible token asset.
pub struct ExtNFTData {
    /// The token contract.
    pub nft_contract_id: AccountId,
}

/// An asset as it goes into or out of the contract.
pub enum ExtAsset {
    FTAsset(ExtFTData),
    NearAsset(ExtNEARData),
    NFTAsset(ExtNFTData),
    FCAsset(Vec<MethodData>),
}

/// Function call data as reported in events.
pub struct ExtFCDataForEvents {
    pub receiver_id: String,
    pub method_name: String,
    pub attached_deposit: Balance,
    pub attached_gas: Gas,
}

/// An asset as reported in events.
pub enum ExtAssetForEvents {
    FTAsset(ExtFTData),
    NearAsset(ExtNEARData),
    NFTAsset(ExtNFTData),
    FCAsset(Vec<ExtFCDataForEvents>),
}

/// The internal asset an external asset becomes.
pub open spec fn internal_of_ext(e: ExtAsset) -> AssetView {
    match e {
        ExtAsset::FTAsset(d) => AssetView::ft(
            InternalFTData {
                contract_id: d.ft_contract_id,
                balance_avail: 0,
                registration_cost: d.registration_cost,
            },
        ),
        ExtAsset::NFTAsset(d) => AssetView::nft(
            NFTDataView { contract_id: d.nft_contract_id@, token_ids: Seq::empty() },
        ),
        ExtAsset::NearAsset(_) => AssetView::near,
        ExtAsset::FCAsset(ms) => AssetView::fc(ms@),
    }
}

/// Tokens an external asset transfers per use.
pub open spec fn ext_tokens_per_use(e: ExtAsset) -> u128 {
    match e {
        ExtAsset::FTAsset(d) => d.ft_amount,
        ExtAsset::NFTAsset(_) => 0,
        ExtAsset::NearAsset(d) => d.yoctonear,
        ExtAsset::FCAsset(_) => 0,
    }
}

/// The asset ID an external asset reports.
pub open spec fn ext_asset_id(e: ExtAsset) -> Seq<char> {
    match e {
        ExtAsset::FTAsset(d) => d.ft_contract_id@,
        ExtAsset::NFTAsset(d) => d.nft_contract_id@,
        ExtAsset::NearAsset(_) => near_asset_id(),
        ExtAsset::FCAsset(_) => fallback_fc_asset_id(),
    }
}

/// Copy a list of methods.
pub fn copy_methods(ms: &Vec<MethodData>) -> (r: Vec<MethodData>)
    ensures
        r@ == ms@,
{
    let mut r: Vec<MethodData> = Vec::new();
    let mut i: usize = 0;
    while i < ms.len()
        invariant
            i <= ms@.len(),
            r@ == ms@.take(i as int),
        decreases ms@.len() - i,
    {
        r.push(ms[i].copy());
        proof {
            assert(r@ =~= ms@.take(i + 1));
        }
        i = i + 1;
    }
    proof {
        assert(ms@.take(ms@.len() as int) =~= ms@);
    }
    r
}

impl ExtAsset {
    /// The internal form of the asset, with nothing deposited yet.
    pub fn to_internal_asset(&self) -> (r: InternalAsset)
        ensures
            r@ == internal_of_ext(*self),
    {
        match self {
            ExtAsset::FTAsset(d) => InternalAsset::ft(
                InternalFTData::new(d.ft_contract_id.clone(), d.registration_cost),
            ),
            ExtAsset::NFTAsset(d) => InternalAsset::nft(InternalNFTData::new(d.nft_contract_id.clone())),
            ExtAsset::NearAsset(_) => InternalAsset::near,
            ExtAsset::FCAsset(ms) => InternalAsset::fc(FCData { methods: copy_methods(ms) }),
        }
    }

    /// Tokens transferred per use (zero for non-fungible tokens and function calls).
    pub fn get_tokens_per_use(&self) -> (r: Balance)
        ensures
            r == ext_tokens_per_use(*self),
    {
        match self {
            ExtAsset::FTAsset(d) => d.ft_amount,
            ExtAsset::NFTAsset(_) => 0,
            ExtAsset::NearAsset(d) => d.yoctonear,
            ExtAsset::FCAsset(_) => 0,
        }
    }

    /// The asset ID: the token contract, `near`, or `fc` for function calls.
    pub fn get_asset_id(&self) -> (r: AssetId)
        ensures
            r@ == ext_asset_id(*self),
    {
        match self {
            ExtAsset::FTAsset(d) => d.ft_contract_id.clone(),
            ExtAsset::NFTAsset(d) => d.nft_contract_id.clone(),
            ExtAsset::NearAsset(_) => near_asset_id_string(),
            ExtAsset::FCAsset(_) => {
                proof {
                    reveal_strlit("fc");
                }
                String::from_str("fc")
            },
        }
    }
}

impl InternalAsset {
    /// Whether the asset has nothing left that could be refunded.
    pub fn is_empty(&self) -> (b: bool)
        ensures
            b == asset_is_empty(self@),
    {
        match self {
            InternalAsset::ft(ft) => !ft.enough_balance(&1),
            InternalAsset::nft(nft) => nft.is_empty(),
            InternalAsset::fc(_) => true,
            InternalAsset::near => true,
            InternalAsset::none => true,
        }
    }

    /// $NEAR to refund to the funder for one use of the asset.
    pub fn get_yocto_refund_amount(&self, tokens_per_use: &Option<Balance>) -> (r: Balance)
        requires
            asset_refund_defined(self@, *tokens_per_use),
        ensures
            r == asset_refund(self@, *tokens_per_use),
    {
        match self {
            InternalAsset::ft(d) => d.registration_cost,
            InternalAsset::nft(_) => 0,
            InternalAsset::near => tokens_per_use.unwrap(),
            InternalAsset::fc(d) => d.get_yocto_refund_amount(),
            InternalAsset::none => 0,
        }
    }

    /// Gas to attach for one claim of the asset.
    pub fn get_total_required_gas(&self) -> (g: Gas)
        requires
            asset_gas_defined(self@),
        ensures
            g == asset_gas(self@),
    {
        match self {
            InternalAsset::ft(d) => d.get_required_gas_for_claim(),
            InternalAsset::nft(d) => d.get_required_gas_for_claim(),
            InternalAsset::fc(d) => d.get_required_gas_for_claim(),
            InternalAsset::near => GAS_FOR_NEAR_TRANSFER,
            InternalAsset::none => GAS_FOR_NONE_ASSET,
        }
    }

    /// Gas one claim of the asset takes.
    pub fn get_required_asset_gas(&self) -> (g: Gas)
        requires
            asset_gas_defined(self@),
        ensures
            g == asset_gas(self@),
    {
        self.get_total_required_gas()
    }

    /// The external form of the asset with the amount it transfers per use.
    pub fn to_external_asset(&self, tokens_per_use: &Option<Balance>) -> (r: Option<ExtAsset>)
        requires
            (self@ is ft || self@ is near) ==> tokens_per_use is Some,
        ensures
            self@ is none <==> r is None,
            r matches Some(e) ==> internal_of_ext(e) == (match self@ {
                AssetView::ft(d) => AssetView::ft(InternalFTData { balance_avail: 0, ..d }),
                AssetView::nft(d) => AssetView::nft(NFTDataView { token_ids: Seq::empty(), ..d }),
                other => other,
            }),
            r matches Some(e) ==> ((self@ is ft || self@ is near) ==> ext_tokens_per_use(e)
                == tokens_per_use.unwrap()),
    {
        match self {
            InternalAsset::ft(d) => Some(
                ExtAsset::FTAsset(
                    ExtFTData {
                        ft_contract_id: d.contract_id.clone(),
                        registration_cost: d.registration_cost,
                        ft_amount: tokens_per_use.unwrap(),
                    },
                ),
            ),
            InternalAsset::nft(d) => Some(
                ExtAsset::NFTAsset(ExtNFTData { nft_contract_id: d.contract_id.clone() }),
            ),
            InternalAsset::fc(d) => Some(ExtAsset::FCAsset(copy_methods(&d.methods))),
            InternalAsset::near => Some(
                ExtAsset::NearAsset(ExtNEARData { yoctonear: tokens_per_use.unwrap() }),
            ),
            InternalAsset::none => None,
        }
    }

    /// The form of the asset reported in events.
    pub fn to_external_events_asset(&self, tokens_per_use: &Option<Balance>) -> (r: Option<
        ExtAssetForEvents,
    >)
        requires
            (self@ is ft || self@ is near) ==> tokens_per_use is Some,
        ensures
            self@ is none <==> r is None,
            self@ is ft <==> r matches Some(ExtAssetForEvents::FTAsset(_)),
            self@ is nft <==> r matches Some(ExtAssetForEvents::NFTAsset(_)),
            self@ is near <==> r matches Some(ExtAssetForEvents::NearAsset(_)),
            r matches Some(ExtAssetForEvents::FTAsset(d)) ==> d.ft_amount == tokens_per_use.unwrap()
                && d.ft_contract_id@ == self@->ft_0.contract_id@ && d.registration_cost
                == self@->ft_0.registration_cost,
            r matches Some(ExtAssetForEvents::NearAsset(d)) ==> d.yoctonear == tokens_per_use.unwrap(),
            r matches Some(ExtAssetForEvents::NFTAsset(d)) ==> d.nft_contract_id@
                == self@->nft_0.contract_id,
            r matches Some(ExtAssetForEvents::FCAsset(v)) ==> v@.len() == self@->fc_0.len() && forall|
                i: int,
            |
                0 <= i < v@.len() ==> {
                    &&& (#[trigger] v@[i]).receiver_id@ == self@->fc_0[i].receiver_id@
                    &&& v@[i].method_name@ == self@->fc_0[i].method_name@
                    &&& v@[i].attached_deposit == self@->fc_0[i].attached_deposit
                    &&& v@[i].attached_gas == self@->fc_0[i].attached_gas
                },
    {
        match self {
            InternalAsset::ft(d) => Some(
                ExtAssetForEvents::FTAsset(
                    ExtFTData {
                        ft_contract_id: d.contract_id.clone(),
                        registration_cost: d.registration_cost,
                        ft_amount: tokens_per_use.unwrap(),
                    },
                ),
            ),
            InternalAsset::nft(d) => Some(
                ExtAssetForEvents::NFTAsset(ExtNFTData { nft_contract_id: d.contract_id.clone() }),
            ),
            InternalAsset::fc(d) => {
                let mut v: Vec<ExtFCDataForEvents> = Vec::new();
                let mut i: usize = 0;
                while i < d.methods.len()
                    invariant
                        i <= d.methods@.len(),
                        v@.len() == i,
                        forall|j: int|
                            0 <= j < i ==> {
                                &&& (#[trigger] v@[j]).receiver_id@ == d.methods@[j].receiver_id@
                                &&& v@[j].method_name@ == d.methods@[j].method_name@
                                &&& v@[j].attached_deposit == d.methods@[j].attached_deposit
                                &&& v@[j].attached_gas == d.methods@[j].attached_gas
                            },
                    decreases d.methods@.len() - i,
                {
                    let m = &d.methods[i];
                    v.push(
                        ExtFCDataForEvents {
                            receiver_id: m.receiver_id.clone(),
                            method_name: m.method_name.clone(),
                            attached_deposit: m.attached_deposit,
                            attached_gas: m.attached_gas,
                        },
                    );
                    i = i + 1;
                }
                Some(ExtAssetForEvents::FCAsset(v))
            },
            InternalAsset::near => Some(
                ExtAssetForEvents::NearAsset(ExtNEARData { yoctonear: tokens_per_use.unwrap() }),
            ),
            InternalAsset::none => None,
        }
    }

    /// Claim the asset for a receiver: fungible tokens and $NEAR need their amount per use;
    /// a function call asset yields its methods for the receiver.
    pub fn claim_asset(&mut self, receiver_id: &AccountId, tokens_per_use: &Option<Balance>) -> (r:
        Option<AssetClaim>)
        requires
            (old(self)@ is ft || old(self)@ is near) ==> tokens_per_use is Some,
        ensures
            match old(self)@ {
                AssetView::ft(d) => {
                    let amount = tokens_per_use.unwrap();
                    if d.balance_avail >= amount {
                        &&& final(self)@ == AssetView::ft(
                            InternalFTData { balance_avail: (d.balance_avail - amount) as u128, ..d },
                        )
                        &&& r == Some(
                            AssetClaim::FungibleToken {
                                contract_id: d.contract_id,
                                receiver_id: *receiver_id,
                                amount,
                                registration_cost: d.registration_cost,
                            },
                        )
                    } else {
                        final(self)@ == old(self)@ && r is None
                    }
                },
                AssetView::nft(d) => if d.token_ids.len() == 0 {
                    final(self)@ == old(self)@ && r is None
                } else {
                    &&& final(self)@ == AssetView::nft(
                        NFTDataView { token_ids: d.token_ids.drop_last(), ..d },
                    )
                    &&& r matches Some(AssetClaim::NonFungibleToken { contract_id, receiver_id: rid, token_id })
                        && contract_id@ == d.contract_id && rid@ == receiver_id@ && token_id@
                        == d.token_ids.last()
                },
                AssetView::fc(ms) => {
                    &&& final(self)@ == old(self)@
                    &&& r matches Some(AssetClaim::FunctionCalls { receiver_id: rid, methods })
                    &&& rid@ == receiver_id@
                    &&& methods@ == ms
                },
                AssetView::near => final(self)@ == old(self)@ && r == Some(
                    AssetClaim::Near { receiver_id: *receiver_id, amount: tokens_per_use.unwrap() },
                ),
                AssetView::none => final(self)@ == old(self)@ && r is None,
            },
    {
        match self {
            InternalAsset::ft(d) => d.claim_ft_asset(receiver_id, &tokens_per_use.unwrap()),
            InternalAsset::nft(d) => d.claim_nft_asset(receiver_id),
            InternalAsset::fc(d) => Some(
                AssetClaim::FunctionCalls {
                    receiver_id: receiver_id.clone(),
                    methods: copy_methods(&d.methods),
                },
            ),
            InternalAsset::near => Some(
                AssetClaim::Near { receiver_id: receiver_id.clone(), amount: tokens_per_use.unwrap() },
            ),
            InternalAsset::none => None,
        }
    }

    /// Undo a claim that failed: fungible tokens go back to the available balance, a
    /// non-fungible token back to the list. Returns the $NEAR to refund to the funder.
    pub fn on_failed_claim(&mut self, tokens_per_use: &Option<Balance>, token_id: &Option<TokenId>) -> (r:
        Balance)
        requires
            old(self)@ is ft ==> tokens_per_use is Some && old(self)@->ft_0.balance_avail
                + tokens_per_use.unwrap() <= u128::MAX,
            old(self)@ is near ==> tokens_per_use is Some,
            old(self)@ is nft ==> token_id is Some,
        ensures
            match old(self)@ {
                AssetView::ft(d) => final(self)@ == AssetView::ft(
                    InternalFTData {
                        balance_avail: (d.balance_avail + tokens_per_use.unwrap()) as u128,
                        ..d
                    },
                ) && r == d.registration_cost,
                AssetView::nft(d) => final(self)@ == AssetView::nft(
                    NFTDataView { token_ids: d.token_ids.push(token_id.unwrap()@), ..d },
                ) && r == 0,
                AssetView::near => final(self)@ == old(self)@ && r == tokens_per_use.unwrap(),
                _ => final(self)@ == old(self)@ && r == 0,
            },
    {
        match self {
            InternalAsset::ft(d) => {
                d.add_to_balance_avail(&tokens_per_use.unwrap());
                d.registration_cost
            },
            InternalAsset::nft(d) => {
                match token_id {
                    Some(t) => d.add_to_token_ids(t),
                    None => {},
                }
                0
            },
            InternalAsset::near => tokens_per_use.unwrap(),
            InternalAsset::fc(_) => 0,
            InternalAsset::none => 0,
        }
    }
}

/// The internal asset for an optional external asset (the null asset when absent).
pub fn ext_asset_to_internal(ext_asset: Option<&ExtAsset>) -> (r: InternalAsset)
    ensures
        match ext_asset {
            Some(e) => r@ == internal_of_ext(*e),
            None => r@ == AssetView::none,
        },
{
    match ext_asset {
        Some(a) => a.to_internal_asset(),
        None => InternalAsset::none,
    }
}

} // verus!
