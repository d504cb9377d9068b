//! Small helpers: asset IDs, byte arrays from keys and signatures, trimming of text.

use vstd::prelude::*;
use crate::assets::fc_asset_prefix;
use crate::external::{
    is_valid_account_id, account_id_valid, json_bool, parse_json_bool, public_key_bytes, public_key_data,
};
use crate::types::{AccountId, AssetId, Balance, PublicKey};

verus! {

/// Whether a text holds another as a contiguous part.
pub open spec fn contains_text(s: Seq<char>, p: Seq<char>) -> bool {
    exists|i: int| 0 <= i && i + p.len() <= s.len() && #[trigger] s.subrange(i, i + p.len()) == p
}

/// Whether a text holds another as a contiguous part.
pub fn text_contains(s: &str, p: &str) -> (b: bool)
    ensures
        b == contains_text(s@, p@),
{
    let n = s.unicode_len();
    let m = p.unicode_len();
    if m == 0 {
        proof {
            assert(s@.subrange(0, 0 + p@.len() as int) =~= p@);
        }
        return true;
    }
    if m > n {
        proof {
            assert forall|i: int| 0 <= i && i + p@.len() <= s@.len() implies #[trigger] s@.subrange(
                i,
                i + p@.len(),
            ) != p@ by {}
        }
        return false;
    }
    let mut i: usize = 0;
    while i <= n - m
        invariant
            n == s@.len(),
            m == p@.len(),
            1 <= m <= n,
            i <= n - m + 1,
            forall|j: int| 0 <= j < i ==> #[trigger] s@.subrange(j, j + m) != p@,
        decreases n - i,
    {
        let mut k: usize = 0;
        let mut ok = true;
        while k < m && ok
            invariant
                n == s@.len(),
                m == p@.len(),
                i + m <= n,
                k <= m,
                ok ==> forall|q: int| 0 <= q < k ==> s@[i + q] == p@[q],
                !ok ==> s@.subrange(i as int, i + m) != p@,
            decreases (m - k) * 2 + if ok {
                1int
            } else {
                0int
            },
        {
            if s.get_char(i + k) != p.get_char(k) {
                ok = false;
                proof {
                    assert(s@.subrange(i as int, i + m)[k as int] == s@[i + k]);
                }
            } else {
                k = k + 1;
            }
        }
        if ok {
            proof {
                assert(s@.subrange(i as int, i + m) =~= p@);
            }
            return true;
        }
        i = i + 1;
    }
    false
}

/// Whether an asset ID is that of a function call asset (it holds `fc&`).
pub fn is_fc_asset_id(asset_id: &AssetId) -> (b: bool)
    ensures
        b == contains_text(asset_id@, fc_asset_prefix()),
{
    let s = asset_id.as_str();
    let n = s.unicode_len();
    if n < 3 {
        proof {
            assert forall|i: int| 0 <= i && i + 3 <= asset_id@.len() implies #[trigger] asset_id@.subrange(
                i,
                i + 3,
            ) != fc_asset_prefix() by {}
        }
        return false;
    }
    let mut i: usize = 0;
    while i < n - 2
        invariant
            n == asset_id@.len(),
            s@ == asset_id@,
            n >= 3,
            i <= n - 2,
            forall|j: int| 0 <= j < i ==> #[trigger] asset_id@.subrange(j, j + 3) != fc_asset_prefix(),
        decreases n - i,
    {
        if s.get_char(i) == 'f' && s.get_char(i + 1) == 'c' && s.get_char(i + 2) == '&' {
            proof {
                assert(asset_id@.subrange(i as int, i + 3) =~= fc_asset_prefix());
            }
            return true;
        }
        proof {
            if asset_id@.subrange(i as int, i + 3) == fc_asset_prefix() {
                assert(asset_id@.subrange(i as int, i + 3)[0] == asset_id@[i as int]);
                assert(asset_id@.subrange(i as int, i + 3)[1] == asset_id@[i + 1]);
                assert(asset_id@.subrange(i as int, i + 3)[2] == asset_id@[i + 2]);
            }
        }
        i = i + 1;
    }
    false
}

/// A text without its first and last characters.
pub fn rem_first_and_last_char(value: &mut String)
    requires
        old(value)@.len() >= 2,
    ensures
        final(value)@ == old(value)@.subrange(1, old(value)@.len() - 1),
{
    let n = value.as_str().unicode_len();
    let inner = String::from_str(value.as_str().substring_char(1, n - 1));
    *value = inner;
}

/// The 64 bytes of a signature, when exactly 64 are given.
pub fn vec_to_64_byte_array(v: Vec<u8>) -> (r: Option<[u8; 64]>)
    ensures
        v@.len() != 64 ==> r is None,
        v@.len() == 64 ==> (r matches Some(a) && a@ == v@),
{
    if v.len() != 64 {
        return None;
    }
    let a: [u8; 64] = [v[0], v[1], v[2], v[3], v[4], v[5], v[6], v[7], v[8], v[9], v[10], v[11], v[12], v[13], v[14], v[15], v[16], v[17], v[18], v[19], v[20], v[21], v[22], v[23], v[24], v[25], v[26], v[27], v[28], v[29], v[30], v[31], v[32], v[33], v[34], v[35], v[36], v[37], v[38], v[39], v[40], v[41], v[42], v[43], v[44], v[45], v[46], v[47], v[48], v[49], v[50], v[51], v[52], v[53], v[54], v[55], v[56], v[57], v[58], v[59], v[60], v[61], v[62], v[63]];
    proof {
        assert(a@ =~= v@);
    }
    Some(a)
}

/// The 32 key bytes of a public key: the data after the curve byte when 33 bytes are held, all
/// of them when 32 are; `None` for other lengths or text that is not a public key.
pub fn pk_to_32_byte_array(pk: &PublicKey) -> (r: Option<[u8; 32]>)
    ensures
        match public_key_data(pk@) {
            Some(b) => if b.len() == 33 {
                r matches Some(a) && a@ == b.subrange(1, 33)
            } else if b.len() == 32 {
                r matches Some(a) && a@ == b
            } else {
                r is None
            },
            None => r is None,
        },
{
    let b = match public_key_bytes(pk.as_str()) {
        Some(b) => b,
        None => {
            return None;
        },
    };
    if b.len() == 33 {
        let a: [u8; 32] = [b[1], b[2], b[3], b[4], b[5], b[6], b[7], b[8], b[9], b[10], b[11], b[12], b[13], b[14], b[15], b[16], b[17], b[18], b[19], b[20], b[21], b[22], b[23], b[24], b[25], b[26], b[27], b[28], b[29], b[30], b[31], b[32]];
        proof {
            assert(a@ =~= b@.subrange(1, 33));
        }
        Some(a)
    } else if b.len() == 32 {
        let a: [u8; 32] = [b[0], b[1], b[2], b[3], b[4], b[5], b[6], b[7], b[8], b[9], b[10], b[11], b[12], b[13], b[14], b[15], b[16], b[17], b[18], b[19], b[20], b[21], b[22], b[23], b[24], b[25], b[26], b[27], b[28], b[29], b[30], b[31]];
        proof {
            assert(a@ =~= b@);
        }
        Some(a)
    } else {
        None
    }
}

/// The share of an amount that a royalty in basis points (out of 10 000) pays.
pub fn royalty_to_payout(royalty_percentage: u32, amount_to_pay: Balance) -> (r: Balance)
    requires
        royalty_percentage * amount_to_pay <= u128::MAX,
    ensures
        r == royalty_percentage * amount_to_pay / 10_000,
{
    (royalty_percentage as u128) * amount_to_pay / 10_000u128
}

/// Who a function call goes to: the claimer when the method asks for it (never the contract
/// itself), else the method's receiver, which must be a valid account ID.
pub fn determine_receiver_id(
    receiver_to_claimer: &Option<bool>,
    method_receiver_id: &String,
    account_id: &AccountId,
    current_account_id: &AccountId,
) -> (r: Result<AccountId, String>)
    ensures
        (match receiver_to_claimer {
            Some(b) => *b,
            None => false,
        }) ==> (if account_id@ == current_account_id@ {
            r is Err
        } else {
            r matches Ok(a) && a@ == account_id@
        }),
        !(match receiver_to_claimer {
            Some(b) => *b,
            None => false,
        }) ==> (if account_id_valid(method_receiver_id@) {
            r matches Ok(a) && a@ == method_receiver_id@
        } else {
            r is Err
        }),
{
    let to_claimer = match receiver_to_claimer {
        Some(b) => *b,
        None => false,
    };
    if to_claimer {
        if *account_id == *current_account_id {
            return Err(String::from_str("Cannot set receiver to claimer if the account ID is the same as the contract ID"));
        }
        Ok(account_id.clone())
    } else {
        if !is_valid_account_id(method_receiver_id.as_str()) {
            return Err(String::from_str("Invalid receiver ID"));
        }
        Ok(method_receiver_id.clone())
    }
}

/// Whether the call that creates an account reports the account created: its promise succeeded
/// (`Some` with the value it returned) with the JSON boolean `true`.
pub fn was_account_created(promise_result: &Option<Vec<u8>>) -> (b: bool)
    ensures
        b == (promise_result matches Some(v) && json_bool(v@) == Some(true)),
{
    match promise_result {
        Some(v) => match parse_json_bool(v.as_slice()) {
            Some(created) => created,
            None => false,
        },
        None => false,
    }
}

/// Whether a claim's transfer succeeded: its promise succeeded (`Some` with the value it
/// returned) with no value, or with the JSON boolean `true`.
pub fn check_promise_result(promise_result: &Option<Vec<u8>>) -> (b: bool)
    ensures
        b == (promise_result matches Some(v) && (v@.len() == 0 || json_bool(v@) == Some(true))),
{
    match promise_result {
        Some(v) => if v.len() == 0 {
            true
        } else {
            match parse_json_bool(v.as_slice()) {
                Some(created) => created,
                None => false,
            }
        },
        None => false,
    }
}

} // verus!
