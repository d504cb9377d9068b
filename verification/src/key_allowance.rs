//! Keys that pay for their refused claim attempts out of a gas allowance: the time rules of a
//! drop (start, end, throttle and claim interval) and the check of claim arguments. A refused
//! attempt costs the key the gas it burnt plus a fixed offset, at the contract's gas price.

use vstd::prelude::*;
use crate::claiming::{bytes_eq, find_password};
use crate::external::{
    account_id_valid, hex_decode, hex_decoded, is_valid_account_id, public_key_bytes, public_key_data, sha256,
    sha256_digest,
};
use crate::state::{pw_for_use, pw_views, PasswordForUse, PasswordView};
use crate::types::TimeConfig;

verus! {

/// Gas added to what a refused attempt burnt when its cost is taken from the allowance.
pub const GAS_FOR_PANIC_OFFSET: u64 = 10_000_000_000_000;

/// A key whose claims are paid from an allowance.
pub struct KeyInfo {
    /// How many uses the key has left; at zero the key is deleted.
    pub remaining_uses: u64,
    /// When the key was last used.
    pub last_used: u64,
    /// Allowance left; refunded to the funder when the key is deleted.
    pub allowance: u128,
    /// Nonce of the key.
    pub key_id: u64,
    /// Password hashes for specific uses.
    pub pw_per_use: Option<Vec<PasswordForUse>>,
    /// Password hash for every use.
    pub pw_per_key: Option<Vec<u8>>,
}

/// View of an allowance-paid key.
pub struct AllowanceKeyView {
    pub remaining_uses: u64,
    pub last_used: u64,
    pub allowance: u128,
    pub key_id: u64,
    pub pw_per_use: Option<Seq<PasswordView>>,
    pub pw_per_key: Option<Seq<u8>>,
}

impl View for KeyInfo {
    type V = AllowanceKeyView;

    open spec fn view(&self) -> AllowanceKeyView {
        AllowanceKeyView {
            remaining_uses: self.remaining_uses,
            last_used: self.last_used,
            allowance: self.allowance,
            key_id: self.key_id,
            pw_per_use: match self.pw_per_use {
                Some(v) => Some(pw_views(v@)),
                None => None,
            },
            pw_per_key: match self.pw_per_key {
                Some(v) => Some(v@),
                None => None,
            },
        }
    }
}

/// What a refused attempt costs: the gas burnt plus the offset, at the gas price.
pub open spec fn refusal_charge(used_gas: u64, yocto_per_gas: u128) -> int {
    (used_gas + GAS_FOR_PANIC_OFFSET) * yocto_per_gas
}

/// Whether a refused attempt can be charged: its cost is computed without overflow and the
/// allowance covers it.
pub open spec fn charge_payable(allowance: u128, used_gas: u64, yocto_per_gas: u128) -> bool {
    &&& used_gas + GAS_FOR_PANIC_OFFSET <= u64::MAX
    &&& refusal_charge(used_gas, yocto_per_gas) <= allowance
}

/// The key after a refused attempt was charged.
pub open spec fn charged(k: AllowanceKeyView, used_gas: u64, yocto_per_gas: u128) -> AllowanceKeyView {
    AllowanceKeyView { allowance: (k.allowance - refusal_charge(used_gas, yocto_per_gas)) as u128, ..k }
}

/// The outcome of the time rules for an attempt.
pub enum TimeVerdict {
    /// The key may be used now.
    Allowed,
    /// The drop's start has not come yet.
    NotStarted,
    /// The drop's end has passed.
    Ended,
    /// Too little time has passed since the key was last used.
    Throttled,
    /// The intervals passed since the start allow no further use yet.
    NoUseAvailable,
}

/// Whether the attempt lies between the drop's start and end.
pub open spec fn within_period(t: TimeConfig, now: u64) -> bool {
    &&& now >= match t.start {
        Some(s) => s,
        None => 0,
    }
    &&& now <= match t.end {
        Some(e) => e,
        None => u64::MAX,
    }
}

/// Uses the claim intervals leave for the key: one per interval passed since the start, less
/// the uses already made.
pub open spec fn uses_left(t: TimeConfig, uses_per_key: Option<u64>, remaining_uses: u64, now: u64) -> int {
    (now - t.start.unwrap()) / (t.interval.unwrap() as int) + remaining_uses - match uses_per_key {
        Some(u) => u,
        None => 0,
    }
}

/// The time rules, checked in order: start, end, throttle, claim interval.
pub open spec fn time_verdict(
    t: TimeConfig,
    uses_per_key: Option<u64>,
    remaining_uses: u64,
    last_used: u64,
    now: u64,
) -> TimeVerdict {
    if now < match t.start {
        Some(s) => s,
        None => 0,
    } {
        TimeVerdict::NotStarted
    } else if now > match t.end {
        Some(e) => e,
        None => u64::MAX,
    } {
        TimeVerdict::Ended
    } else if t.throttle matches Some(th) && now - last_used < th {
        TimeVerdict::Throttled
    } else if t.interval is Some && uses_left(t, uses_per_key, remaining_uses, now) < 1 {
        TimeVerdict::NoUseAvailable
    } else {
        TimeVerdict::Allowed
    }
}

/// Whether the throttle was checked and passed, which records the attempt as the key's last use.
pub open spec fn throttle_passed(t: TimeConfig, last_used: u64, now: u64) -> bool {
    &&& within_period(t, now)
    &&& (t.throttle matches Some(th) && now - last_used >= th)
}

/// The inputs on which the time rules are computed without a fault: the throttle needs the last
/// use in the past; the interval needs a start, a nonzero length, and a use count that neither
/// overflows nor goes below zero.
pub open spec fn time_rules_defined(
    t: TimeConfig,
    uses_per_key: Option<u64>,
    remaining_uses: u64,
    last_used: u64,
    now: u64,
) -> bool {
    &&& (within_period(t, now) && t.throttle is Some) ==> now >= last_used
    &&& (within_period(t, now) && !(t.throttle matches Some(th) && now - last_used < th) && t.interval is Some)
        ==> {
        &&& t.start is Some
        &&& t.interval.unwrap() > 0
        &&& (now - t.start.unwrap()) / (t.interval.unwrap() as int) + remaining_uses <= u64::MAX
        &&& uses_left(t, uses_per_key, remaining_uses, now) >= 0
    }
}

/// The throttle spaces uses out: once an attempt at `t1` passes the time rules of a drop with
/// a throttle (which records `t1` as the key's last use), an attempt before `t1 + throttle`
/// is refused.
pub proof fn lemma_throttle_spaces_uses(
    t: TimeConfig,
    uses_per_key: Option<u64>,
    k: AllowanceKeyView,
    t1: u64,
    t2: u64,
)
    requires
        t.throttle is Some,
        time_verdict(t, uses_per_key, k.remaining_uses, k.last_used, t1) is Allowed,
        t1 <= t2,
        t2 < t1 + t.throttle.unwrap(),
    ensures
        throttle_passed(t, k.last_used, t1),
        !(time_verdict(t, uses_per_key, k.remaining_uses, t1, t2) is Allowed),
{
}

/// Take the cost of a refused attempt from the key's allowance.
pub fn charge_refused_attempt(key_info: &mut KeyInfo, used_gas: u64, yocto_per_gas: u128)
    requires
        charge_payable(old(key_info).allowance, used_gas, yocto_per_gas),
    ensures
        final(key_info)@ == charged(old(key_info)@, used_gas, yocto_per_gas),
{
    let gas = (used_gas + GAS_FOR_PANIC_OFFSET) as u128;
    proof {
        assert(gas * yocto_per_gas <= key_info.allowance);
    }
    let amount = gas * yocto_per_gas;
    key_info.allowance = key_info.allowance - amount;
}

/// Check an attempt against the drop's time rules (`uses_per_key` is the drop's). A refused
/// attempt is charged to the key's allowance; an attempt that passes the throttle becomes the
/// key's last use, also where the claim interval then refuses it. Returns whether the key may
/// be used.
pub fn assert_claim_timestamps(
    time: &Option<TimeConfig>,
    uses_per_key: Option<u64>,
    key_info: &mut KeyInfo,
    block_timestamp: u64,
    used_gas: u64,
    yocto_per_gas: u128,
) -> (b: bool)
    requires
        *time matches Some(t) ==> {
            &&& time_rules_defined(
                t,
                uses_per_key,
                old(key_info).remaining_uses,
                old(key_info).last_used,
                block_timestamp,
            )
            &&& !(time_verdict(
                t,
                uses_per_key,
                old(key_info).remaining_uses,
                old(key_info).last_used,
                block_timestamp,
            ) is Allowed) ==> charge_payable(old(key_info).allowance, used_gas, yocto_per_gas)
        },
    ensures
        match *time {
            None => b && final(key_info)@ == old(key_info)@,
            Some(t) => {
                let k = old(key_info)@;
                let v = time_verdict(t, uses_per_key, k.remaining_uses, k.last_used, block_timestamp);
                let used = if throttle_passed(t, k.last_used, block_timestamp) {
                    AllowanceKeyView { last_used: block_timestamp, ..k }
                } else {
                    k
                };
                &&& b == (v is Allowed)
                &&& final(key_info)@ == if v is Allowed {
                    used
                } else {
                    charged(used, used_gas, yocto_per_gas)
                }
            },
        },
{
    let t = match time {
        Some(t) => *t,
        None => {
            return true;
        },
    };
    let start = match t.start {
        Some(s) => s,
        None => 0,
    };
    if block_timestamp < start {
        charge_refused_attempt(key_info, used_gas, yocto_per_gas);
        return false;
    }
    let end = match t.end {
        Some(e) => e,
        None => u64::MAX,
    };
    if block_timestamp > end {
        charge_refused_attempt(key_info, used_gas, yocto_per_gas);
        return false;
    }
    if let Some(throttle) = t.throttle {
        if block_timestamp - key_info.last_used < throttle {
            charge_refused_attempt(key_info, used_gas, yocto_per_gas);
            return false;
        }
        key_info.last_used = block_timestamp;
    }
    if let Some(interval) = t.interval {
        let start_timestamp = t.start.unwrap();
        let total_num_uses = (block_timestamp - start_timestamp) / interval;
        let upk = match uses_per_key {
            Some(u) => u,
            None => 0,
        };
        let left = total_num_uses + key_info.remaining_uses - upk;
        if left < 1 {
            charge_refused_attempt(key_info, used_gas, yocto_per_gas);
            return false;
        }
    }
    true
}

/// Whether the arguments of a claim are usable: a valid account ID and, where one is given, a
/// public key `near_sdk` parses.
pub open spec fn claim_args_valid(account_id: Seq<char>, pub_key: Option<Seq<char>>) -> bool {
    &&& account_id_valid(account_id)
    &&& pub_key matches Some(k) ==> public_key_data(k) is Some
}

/// Check the arguments of a claim; unusable arguments are charged to the key's allowance.
/// Returns whether they are usable.
pub fn assert_valid_args(
    account_id: &String,
    pub_key: &Option<String>,
    key_info: &mut KeyInfo,
    used_gas: u64,
    yocto_per_gas: u128,
) -> (b: bool)
    requires
        !claim_args_valid(account_id@, crate::state::opt_view(*pub_key)) ==> charge_payable(
            old(key_info).allowance,
            used_gas,
            yocto_per_gas,
        ),
    ensures
        b == claim_args_valid(account_id@, crate::state::opt_view(*pub_key)),
        final(key_info)@ == if b {
            old(key_info)@
        } else {
            charged(old(key_info)@, used_gas, yocto_per_gas)
        },
{
    let account_ok = is_valid_account_id(account_id.as_str());
    let key_ok = match pub_key {
        Some(k) => public_key_bytes(k.as_str()).is_some(),
        None => true,
    };
    if !account_ok || !key_ok {
        charge_refused_attempt(key_info, used_gas, yocto_per_gas);
        return false;
    }
    true
}

/// The hash a password is compared by: SHA-256 of its hex decoding (of no bytes when there is
/// no password or it is not hex).
pub open spec fn hashed_password(pw: Option<Seq<char>>) -> Seq<u8> {
    sha256_digest(
        match pw {
            Some(p) => match hex_decoded(p) {
                Some(b) => b,
                None => Seq::empty(),
            },
            None => Seq::empty(),
        },
    )
}

/// Whether a password opens a key at a use: it must match the key's password, if any, and the
/// password of that use, if any.
pub open spec fn key_password_ok(k: AllowanceKeyView, pw: Option<Seq<char>>, cur_use: u64) -> bool {
    let h = hashed_password(pw);
    &&& (k.pw_per_key matches Some(p) ==> p == h)
    &&& (k.pw_per_use matches Some(m) ==> (pw_for_use(m, cur_use) matches Some(p) ==> p == h))
}

/// Check a password against the key's password and the password of the current use; a wrong
/// password is charged to the key's allowance. Returns whether it opens the key.
pub fn assert_key_password(
    pw: &Option<String>,
    key_info: &mut KeyInfo,
    cur_use: u64,
    used_gas: u64,
    yocto_per_gas: u128,
) -> (b: bool)
    requires
        !key_password_ok(old(key_info)@, crate::state::opt_view(*pw), cur_use) ==> charge_payable(
            old(key_info).allowance,
            used_gas,
            yocto_per_gas,
        ),
    ensures
        b == key_password_ok(old(key_info)@, crate::state::opt_view(*pw), cur_use),
        final(key_info)@ == if b {
            old(key_info)@
        } else {
            charged(old(key_info)@, used_gas, yocto_per_gas)
        },
{
    let decoded = match pw {
        Some(p) => match hex_decode(p.as_str()) {
            Some(b) => b,
            None => Vec::new(),
        },
        None => Vec::new(),
    };
    let hashed = sha256(decoded.as_slice());
    let key_ok = match &key_info.pw_per_key {
        Some(p) => bytes_eq(p, &hashed),
        None => true,
    };
    let use_ok = match &key_info.pw_per_use {
        Some(v) => match find_password(v, cur_use) {
            Some(p) => bytes_eq(p, &hashed),
            None => true,
        },
        None => true,
    };
    if !key_ok || !use_ok {
        charge_refused_attempt(key_info, used_gas, yocto_per_gas);
        return false;
    }
    true
}

} // verus!
