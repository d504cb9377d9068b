use keypom::assets::{
    AssetClaim, ExtAsset, ExtFTData, ExtNEARData, ExtNFTData, FCData, InternalAsset, InternalFTData,
    InternalNFTData, MethodData, UserArgsRule,
};
use keypom::creation::{ExtKeyData, JsonPasswordForUse};
use keypom::helpers::{
    check_promise_result, determine_receiver_id, is_fc_asset_id, rem_first_and_last_char,
    royalty_to_payout, vec_to_64_byte_array, was_account_created,
};
use keypom::events::{
    claim_event, drop_creation_event, internal_clear_drop_storage, key_logs, key_transfer_event,
    EventLogVariant,
};
use keypom::fc_args::{add_keypom_args, insert_keypom_arg, split_field};
use keypom::fc_claims::{applies_user_rules, handle_fc_args as prepare_fc_args, initial_args};
use keypom::json::{
    handle_user_args_rules, merge_json, replace_text, set_user_markers, JsonValue, MarkerValue,
    UserMarker,
};
use keypom::key_allowance::{
    assert_claim_timestamps, assert_key_password as key_password, assert_valid_args,
    KeyInfo as AllowanceKey, GAS_FOR_PANIC_OFFSET,
};
use keypom::nft_keys::NftApproveMsg;
use keypom::state::{Keypom, PasswordForUse};
use keypom::strmap::StrMap;
use keypom::token_id::{make_token_id, parse_token_id, parse_u64, u64_to_decimal};
use keypom::types::{ClaimPermissions, DropConfig, KeypomError, KeypomInjectedArgs, TimeConfig, UseConfig};
use keypom::uses::{get_total_costs_for_key, ExtAssetDataForUses};

const TGAS: u64 = 1_000_000_000_000;

fn s(x: &str) -> String {
    x.to_string()
}

fn key(pk: &str) -> ExtKeyData {
    ExtKeyData { public_key: s(pk), password_by_use: None, metadata: None, key_owner: None }
}

fn near_data(uses: u32, yocto: u128) -> ExtAssetDataForUses {
    ExtAssetDataForUses {
        uses,
        assets: vec![Some(ExtAsset::NearAsset(ExtNEARData { yoctonear: yocto }))],
        config: None,
    }
}

fn contract() -> Keypom {
    Keypom::new(s("testnet"), s("owner.testnet"))
}

fn with_near_drop() -> Keypom {
    let mut k = contract();
    let cost = k
        .internal_create_drop(
            &s("funder.testnet"),
            s("drop1"),
            vec![key("ed25519:AAA"), key("ed25519:BBB")],
            vec![near_data(2, 1000)],
            None,
            0,
        )
        .unwrap();
    assert_eq!(cost, 2000);
    k
}

#[test]
fn token_id_round_trip() {
    let t = make_token_id(&s("my-drop"), 42);
    assert_eq!(t, "my-drop:42");
    let (d, n) = parse_token_id(&t).unwrap();
    assert_eq!(d, "my-drop");
    assert_eq!(n, 42);
}

#[test]
fn token_id_with_bad_nonce_is_refused() {
    assert_eq!(parse_token_id(&s("drop:abc")), Err(s("Invalid key nonce")));
    assert!(parse_token_id(&s("drop:")).is_err());
}

#[test]
fn parse_u64_follows_std() {
    assert_eq!(parse_u64("0"), Some(0));
    assert_eq!(parse_u64("+17"), Some(17));
    assert_eq!(parse_u64("18446744073709551615"), Some(u64::MAX));
    assert_eq!(parse_u64("18446744073709551616"), None);
    assert_eq!(parse_u64(""), None);
    assert_eq!(parse_u64("+"), None);
    assert_eq!(parse_u64("-1"), None);
    assert_eq!(u64_to_decimal(90210), "90210");
}

#[test]
fn strmap_insert_get_remove() {
    let mut m: StrMap<u64> = StrMap::new();
    assert!(m.is_empty());
    assert_eq!(m.insert(s("a"), 1), None);
    assert_eq!(m.insert(s("b"), 2), None);
    assert_eq!(m.insert(s("a"), 3), Some(1));
    assert_eq!(m.len(), 2);
    assert_eq!(m.get(&s("a")), Some(&3));
    assert_eq!(m.remove(&s("a")), Some(3));
    assert_eq!(m.get(&s("a")), None);
    assert_eq!(m.keys(), vec![s("b")]);
}

#[test]
fn create_drop_registers_keys_and_funder() {
    let k = with_near_drop();
    assert_eq!(k.token_id_by_pk.get(&s("ed25519:AAA")), Some(&s("drop1:0")));
    assert_eq!(k.token_id_by_pk.get(&s("ed25519:BBB")), Some(&s("drop1:1")));
    let d = k.drop_by_id.get(&s("drop1")).unwrap();
    assert_eq!(d.max_key_uses, 2);
    assert_eq!(d.next_key_id, 2);
    assert_eq!(d.funder_id, "funder.testnet");
    let key_b = d.key_info_by_token_id.get(&s("drop1:1")).unwrap();
    assert_eq!(key_b.pub_key, "ed25519:BBB");
    assert_eq!(key_b.remaining_uses, 2);
    assert!(k.drop_ids_by_funder.get(&s("funder.testnet")).unwrap().contains_key(&s("drop1")));
    assert_eq!(k.nft_total_supply(), 2);
}

#[test]
fn create_drop_refusals() {
    let mut k = with_near_drop();
    let r = k.internal_create_drop(&s("funder.testnet"), s("drop1"), vec![], vec![], None, 0);
    assert_eq!(r, Err(KeypomError::DropExists));
    let r = k.internal_create_drop(&s("funder.testnet"), s("a:b"), vec![], vec![], None, 0);
    assert_eq!(r, Err(KeypomError::DropIdHasColon));
    let r = k.internal_create_drop(
        &s("funder.testnet"),
        s("drop2"),
        vec![key("ed25519:AAA")],
        vec![near_data(1, 5)],
        None,
        0,
    );
    assert_eq!(r, Err(KeypomError::KeyAlreadyAdded));
    let r = k.internal_create_drop(
        &s("funder.testnet"),
        s("drop2"),
        vec![key("ed25519:CCC"), key("ed25519:CCC")],
        vec![near_data(1, 5)],
        None,
        0,
    );
    assert_eq!(r, Err(KeypomError::KeyAlreadyAdded));
    let many: Vec<ExtKeyData> = (0..101).map(|i| key(&format!("ed25519:K{}", i))).collect();
    let r = k.internal_create_drop(&s("funder.testnet"), s("drop3"), many, vec![], None, 0);
    assert_eq!(r, Err(KeypomError::BadKeyCount));
    assert!(k.drop_by_id.get(&s("drop2")).is_none());
    k.global_freeze = true;
    let r = k.internal_create_drop(&s("funder.testnet"), s("drop4"), vec![], vec![], None, 0);
    assert_eq!(r, Err(KeypomError::GlobalFreeze));
}

#[test]
fn create_drop_with_invalid_time_or_too_much_gas() {
    let mut k = contract();
    let cfg = UseConfig {
        time: Some(TimeConfig { start: Some(5), end: Some(4), throttle: None, interval: None }),
        permissions: None,
        account_creation_keypom_args: None,
        root_account_id: None,
    };
    let data = ExtAssetDataForUses { uses: 1, assets: vec![None], config: Some(cfg) };
    let r = k.internal_create_drop(&s("f"), s("d"), vec![], vec![data], None, 0);
    assert_eq!(r, Err(KeypomError::InvalidTimeConfig));
    let heavy = MethodData {
        receiver_id: s("game.testnet"),
        method_name: s("play"),
        args: s("{}"),
        attached_deposit: 0,
        attached_gas: 250 * TGAS,
        keypom_args: None,
        receiver_to_claimer: None,
        user_args_rule: None,
    };
    let data = ExtAssetDataForUses { uses: 1, assets: vec![Some(ExtAsset::FCAsset(vec![heavy]))], config: None };
    let r = k.internal_create_drop(&s("f"), s("d"), vec![], vec![data], None, 0);
    assert_eq!(r, Err(KeypomError::GasExceedsLimit));
}

#[test]
fn function_call_assets_get_numbered_ids() {
    let mut k = contract();
    let m = MethodData {
        receiver_id: s("game.testnet"),
        method_name: s("play"),
        args: s("{}"),
        attached_deposit: 7,
        attached_gas: 10 * TGAS,
        keypom_args: None,
        receiver_to_claimer: None,
        user_args_rule: None,
    };
    let data = ExtAssetDataForUses {
        uses: 1,
        assets: vec![Some(ExtAsset::FCAsset(vec![m.copy()])), None, Some(ExtAsset::FCAsset(vec![m]))],
        config: None,
    };
    let cost = k.internal_create_drop(&s("f"), s("d"), vec![key("ed25519:Z")], vec![data], None, 0).unwrap();
    assert_eq!(cost, 14);
    let d = k.drop_by_id.get(&s("d")).unwrap();
    let ids: Vec<String> = d.asset_data_for_uses[0].assets_metadata.iter().map(|m| m.asset_id.clone()).collect();
    assert_eq!(ids, vec![s("fc&1"), s("none-asset"), s("fc&2")]);
    assert!(d.asset_by_id.contains_key(&s("fc&1")));
    assert!(is_fc_asset_id(&s("fc&1")));
    assert!(!is_fc_asset_id(&s("none-asset")));
}

#[test]
fn claim_takes_one_use_and_transfers_near() {
    let mut k = with_near_drop();
    let data = k.claim(&s("keypom.testnet"), &s("ed25519:AAA"), None, 300 * TGAS).unwrap();
    assert_eq!(data.token_id, "drop1:0");
    assert_eq!(data.drop_id, "drop1");
    assert_eq!(data.key_id, 0);
    assert!(!data.key_deleted);
    assert_eq!(data.root_account_id, "testnet");
    let remaining = k.drop_by_id.get(&s("drop1")).unwrap().key_info_by_token_id.get(&s("drop1:0")).unwrap().remaining_uses;
    assert_eq!(remaining, 1);
    let plan = k.internal_claim_assets(&data.token_id, &s("alice.testnet")).unwrap();
    assert_eq!(plan.claims.len(), 1);
    match &plan.claims[0] {
        Some(AssetClaim::Near { receiver_id, amount }) => {
            assert_eq!(receiver_id, "alice.testnet");
            assert_eq!(*amount, 1000);
        },
        _ => panic!("expected a $NEAR transfer"),
    }
    assert_eq!(k.on_assets_claimed(&data.token_id, &vec![None], &vec![true]), Ok(true));
    assert_eq!(k.get_user_balance(&s("funder.testnet")), 0);
}

#[test]
fn last_use_removes_the_key() {
    let mut k = with_near_drop();
    for i in 0..2 {
        let data = k.claim(&s("keypom.testnet"), &s("ed25519:AAA"), None, 300 * TGAS).unwrap();
        assert_eq!(data.key_deleted, i == 1);
        k.internal_claim_assets(&data.token_id, &s("alice.testnet")).unwrap();
        assert_eq!(k.on_assets_claimed(&data.token_id, &vec![None], &vec![true]), Ok(true));
    }
    assert!(k.token_id_by_pk.get(&s("ed25519:AAA")).is_none());
    let d = k.drop_by_id.get(&s("drop1")).unwrap();
    assert!(d.key_info_by_token_id.get(&s("drop1:0")).is_none());
    let r = k.claim(&s("keypom.testnet"), &s("ed25519:AAA"), None, 300 * TGAS);
    assert_eq!(r.err(), Some(KeypomError::KeyNotFound));
}

#[test]
fn failed_near_transfer_is_refunded() {
    let mut k = with_near_drop();
    let data = k.claim(&s("keypom.testnet"), &s("ed25519:BBB"), None, 300 * TGAS).unwrap();
    k.internal_claim_assets(&data.token_id, &s("alice.testnet")).unwrap();
    assert_eq!(k.on_assets_claimed(&data.token_id, &vec![None], &vec![false]), Ok(false));
    assert_eq!(k.get_user_balance(&s("funder.testnet")), 1000);
}

#[test]
fn claim_needs_enough_gas_and_the_right_method() {
    let mut k = with_near_drop();
    let r = k.claim(&s("keypom.testnet"), &s("ed25519:AAA"), None, 10 * TGAS);
    assert_eq!(r.err(), Some(KeypomError::NotEnoughGas));
    let r = k.create_account_and_claim(&s("keypom.testnet"), &s("ed25519:AAA"), None, 300 * TGAS).unwrap();
    assert_eq!(r.1, 20 * TGAS + 9 * TGAS);
    let mut k = contract();
    let cfg = UseConfig {
        time: None,
        permissions: Some(ClaimPermissions::claim),
        account_creation_keypom_args: None,
        root_account_id: Some(s("custom.testnet")),
    };
    let data = ExtAssetDataForUses { uses: 1, assets: vec![None], config: Some(cfg) };
    k.internal_create_drop(&s("f"), s("d"), vec![key("ed25519:P")], vec![data], None, 0).unwrap();
    let r = k.create_account_and_claim(&s("keypom.testnet"), &s("ed25519:P"), None, 300 * TGAS);
    assert_eq!(r.err(), Some(KeypomError::WrongClaimMethod));
    let data = k.claim(&s("keypom.testnet"), &s("ed25519:P"), None, 300 * TGAS).unwrap();
    assert_eq!(data.root_account_id, "custom.testnet");
}

#[test]
fn password_protected_use() {
    let mut k = contract();
    let mut kd = key("ed25519:PW");
    kd.password_by_use = Some(vec![JsonPasswordForUse {
        pw: s("2bb80d537b1da3e38bd30361aa855686bde0eacd7162fef6a25fe97bf527a25b"),
        key_use: 1,
    }]);
    k.internal_create_drop(&s("f"), s("d"), vec![kd], vec![near_data(1, 1)], None, 0).unwrap();
    let r = k.claim(&s("k"), &s("ed25519:PW"), None, 300 * TGAS);
    assert_eq!(r.err(), Some(KeypomError::PasswordExpected));
    let r = k.claim(&s("k"), &s("ed25519:PW"), Some(s("00")), 300 * TGAS);
    assert_eq!(r.err(), Some(KeypomError::PasswordMismatch));
    let r = k.claim(&s("k"), &s("ed25519:PW"), Some(s("736563726574")), 300 * TGAS);
    assert!(r.is_ok());
}

#[test]
fn invalid_password_hex_is_refused_at_creation() {
    let mut k = contract();
    let mut kd = key("ed25519:PW");
    kd.password_by_use = Some(vec![JsonPasswordForUse { pw: s("zz"), key_use: 1 }]);
    let r = k.internal_create_drop(&s("f"), s("d"), vec![kd], vec![near_data(1, 1)], None, 0);
    assert_eq!(r, Err(KeypomError::InvalidHex));
}

#[test]
fn balances_add_and_withdraw() {
    let mut k = contract();
    let a = s("alice.testnet");
    assert_eq!(k.withdraw_from_balance(&a, None), Err(KeypomError::UserNotFound));
    k.add_to_balance(&a, 500).unwrap();
    assert_eq!(k.get_user_balance(&a), 500);
    assert_eq!(k.withdraw_from_balance(&a, Some(600)), Ok(0));
    assert_eq!(k.withdraw_from_balance(&a, Some(200)), Ok(200));
    assert_eq!(k.get_user_balance(&a), 300);
    assert_eq!(k.withdraw_from_balance(&a, None), Ok(300));
    assert_eq!(k.get_user_balance(&a), 0);
    assert_eq!(k.internal_modify_user_balance(&a, 1, true), Err(KeypomError::InsufficientBalance));
    k.add_to_balance(&a, u128::MAX).unwrap();
    assert_eq!(k.add_to_balance(&a, 1), Err(KeypomError::Overflow));
}

#[test]
fn charging_uses_deposit_then_balance() {
    let mut k = contract();
    let a = s("alice.testnet");
    assert_eq!(k.charge_with_deposit_or_balance(&a, 100, 150), Ok(50));
    assert_eq!(k.charge_with_deposit_or_balance(&a, 100, 50), Err(KeypomError::InsufficientBalance));
    k.add_to_balance(&a, 70).unwrap();
    assert_eq!(k.charge_with_deposit_or_balance(&a, 100, 50), Ok(0));
    assert_eq!(k.get_user_balance(&a), 20);
}

#[test]
fn determine_costs_charges_fees_storage_and_assets() {
    let mut k = contract();
    let owner = s("owner.testnet");
    k.set_fees(&owner, Some(1_000), Some(10)).unwrap();
    let a = s("alice.testnet");
    // 3 keys × 100 + 50 bytes × 2 + 3 × 10 + 1 000 = 1 430
    assert_eq!(k.determine_costs(&a, 3, true, 100, 50, 2, 2_000), Ok(570));
    assert_eq!(k.fees_collected, 1_030);
    k.set_fees_per_user(&owner, a.clone(), 0, 0).unwrap();
    assert_eq!(k.determine_costs(&a, 3, true, 100, 50, 2, 400), Ok(0));
    assert_eq!(k.fees_collected, 1_030);
    assert_eq!(k.determine_costs(&a, 3, true, 100, 50, 2, 300), Err(KeypomError::InsufficientBalance));
    assert_eq!(k.set_fees(&a, Some(1), None), Err(KeypomError::NotOwner));
    assert_eq!(k.withdraw_fees(&owner), Ok(1_030));
    assert_eq!(k.fees_collected, 0);
    assert!(!k.on_withdraw_fees(1_030, false));
    assert_eq!(k.fees_collected, 1_030);
}

#[test]
fn excess_deposit_kept_or_returned() {
    let mut k = contract();
    let a = s("alice.testnet");
    assert_eq!(k.handle_excess_deposit(&a, 40, Some(true)), Ok(0));
    assert_eq!(k.get_user_balance(&a), 40);
    assert_eq!(k.handle_excess_deposit(&a, 40, None), Ok(40));
    assert_eq!(k.get_user_balance(&a), 40);
}

#[test]
fn funder_metadata_merges_json() {
    let mut k = contract();
    let a = s("alice.testnet");
    k.set_funder_metadata(&a, Some(s("{\"a\":1}"))).unwrap();
    k.set_funder_metadata(&a, Some(s("{\"b\":2}"))).unwrap();
    let f = k.funder_info_by_id.get(&a).unwrap();
    assert_eq!(f.metadata, Some(s("{\"a\":1,\"b\":2}")));
    assert_eq!(k.set_funder_metadata(&a, Some(s("not json"))), Err(KeypomError::InvalidMetadata));
    k.internal_modify_user_metadata(&a, None, Some(false)).unwrap();
    assert_eq!(k.funder_info_by_id.get(&a).unwrap().metadata, None);
}

#[test]
fn metadata_storage_is_settled() {
    let mut k = contract();
    let a = s("alice.testnet");
    assert_eq!(k.settle_metadata_storage(&a, 100, 110, 3, 100), Ok(70));
    assert_eq!(k.settle_metadata_storage(&a, 110, 100, 3, 5), Ok(35));
    assert_eq!(k.settle_metadata_storage(&a, 100, 110, 3, 10), Err(KeypomError::InsufficientBalance));
}

#[test]
fn add_keys_only_by_funder_or_allowlist() {
    let mut k = contract();
    let cfg = DropConfig {
        metadata: None,
        add_key_allowlist: Some(vec![s("friend.testnet")]),
        delete_empty_drop: None,
        extra_allowance_per_key: None,
    };
    k.internal_create_drop(&s("f"), s("d"), vec![], vec![near_data(1, 10)], Some(cfg), 0).unwrap();
    assert_eq!(k.add_keys(&s("stranger"), &s("d"), vec![key("ed25519:X")], 0), Err(KeypomError::NotFunder));
    assert_eq!(k.add_keys(&s("friend.testnet"), &s("d"), vec![key("ed25519:X")], 0), Ok(10));
    assert_eq!(k.add_keys(&s("f"), &s("d"), vec![], 0), Err(KeypomError::BadKeyCount));
    assert_eq!(k.add_keys(&s("f"), &s("d"), vec![key("ed25519:Y")], 0), Ok(10));
    assert_eq!(k.token_id_by_pk.get(&s("ed25519:Y")), Some(&s("d:1")));
    assert_eq!(k.add_keys(&s("f"), &s("nope"), vec![key("ed25519:Q")], 0), Err(KeypomError::DropNotFound));
}

#[test]
fn delete_keys_refunds_remaining_uses() {
    let mut k = with_near_drop();
    let data = k.claim(&s("k"), &s("ed25519:AAA"), None, 300 * TGAS).unwrap();
    k.internal_claim_assets(&data.token_id, &s("alice")).unwrap();
    k.on_assets_claimed(&data.token_id, &vec![None], &vec![true]).unwrap();
    assert_eq!(k.delete_keys(&s("other"), &s("drop1"), None, None, None, 0), Err(KeypomError::NotFunder));
    let deleted = k.delete_keys(&s("funder.testnet"), &s("drop1"), None, None, None, 0).unwrap();
    assert_eq!(deleted.len(), 2);
    // one use of the first key and two of the second are refunded
    assert_eq!(k.get_user_balance(&s("funder.testnet")), 3000);
    assert!(k.drop_by_id.get(&s("drop1")).is_none());
    assert!(k.drop_ids_by_funder.get(&s("funder.testnet")).is_none());
    assert_eq!(k.nft_total_supply(), 0);
}

#[test]
fn nft_assets_are_claimed_from_the_end_and_refunded() {
    let mut k = contract();
    let data = ExtAssetDataForUses {
        uses: 1,
        assets: vec![Some(ExtAsset::NFTAsset(ExtNFTData { nft_contract_id: s("nft.testnet") }))],
        config: None,
    };
    k.internal_create_drop(&s("f"), s("d"), vec![key("ed25519:N")], vec![data], None, 0).unwrap();
    let mut drop = k.drop_by_id.remove(&s("d")).unwrap();
    let mut asset = drop.asset_by_id.remove(&s("nft.testnet")).unwrap();
    if let InternalAsset::nft(n) = &mut asset {
        n.add_to_token_ids(&s("t1"));
        n.add_to_token_ids(&s("t2"));
    }
    drop.asset_by_id.insert(s("nft.testnet"), asset);
    k.drop_by_id.insert(s("d"), drop);
    let bc = k.claim(&s("k"), &s("ed25519:N"), None, 300 * TGAS).unwrap();
    let plan = k.internal_claim_assets(&bc.token_id, &s("bob")).unwrap();
    assert_eq!(plan.token_ids_transferred, vec![Some(s("t2"))]);
    assert_eq!(k.on_assets_claimed(&bc.token_id, &plan.token_ids_transferred, &vec![false]), Ok(false));
    match k.drop_by_id.get(&s("d")).unwrap().asset_by_id.get(&s("nft.testnet")).unwrap() {
        InternalAsset::nft(n) => assert_eq!(n.token_ids, vec![s("t1"), s("t2")]),
        _ => panic!("expected non-fungible tokens"),
    }
}

#[test]
fn ft_claim_needs_available_balance() {
    let mut ft = InternalFTData::new(s("ft.testnet"), 5);
    assert!(ft.claim_ft_asset(&s("bob"), &10).is_none());
    ft.add_to_balance_avail(&15);
    match ft.claim_ft_asset(&s("bob"), &10) {
        Some(AssetClaim::FungibleToken { amount, registration_cost, .. }) => {
            assert_eq!(amount, 10);
            assert_eq!(registration_cost, 5);
        },
        _ => panic!("expected a fungible token transfer"),
    }
    assert_eq!(ft.balance_avail, 5);
    assert!(!ft.enough_balance(&6));
    let ext = ExtAsset::FTAsset(ExtFTData { ft_contract_id: s("ft.testnet"), registration_cost: 5, ft_amount: 3 });
    assert_eq!(ext.get_tokens_per_use(), 3);
    assert_eq!(ext.get_asset_id(), "ft.testnet");
}

#[test]
fn nft_key_transfer_changes_owner_and_public_key() {
    let mut k = contract();
    let mut kd = key("ed25519:OLD");
    kd.key_owner = Some(s("alice.testnet"));
    k.internal_create_drop(&s("f"), s("d"), vec![kd], vec![near_data(1, 1)], None, 0).unwrap();
    assert_eq!(k.nft_supply_for_owner(&s("alice.testnet")), 1);
    let r = k.internal_transfer(&s("mallory"), Some(s("bob")), &s("d:0"), None, s("ed25519:NEW"), &s("keypom"), 0);
    assert_eq!(r.err(), Some(KeypomError::Unauthorized));
    let out = k
        .internal_transfer(&s("alice.testnet"), Some(s("bob")), &s("d:0"), None, s("ed25519:NEW"), &s("keypom"), 0)
        .unwrap();
    assert_eq!(out.old_owner_id, "alice.testnet");
    assert_eq!(out.old_public_key, "ed25519:OLD");
    assert!(k.token_id_by_pk.get(&s("ed25519:OLD")).is_none());
    assert_eq!(k.token_id_by_pk.get(&s("ed25519:NEW")), Some(&s("d:0")));
    assert_eq!(k.nft_supply_for_owner(&s("alice.testnet")), 0);
    assert_eq!(k.nft_tokens_for_owner(&s("bob"), None, None), vec![s("d:0")]);
    assert_eq!(k.nft_tokens(None, None), vec![s("d:0")]);
    assert_eq!(k.nft_is_approved(&s("d:0"), &s("x"), None), Ok(false));
}

#[test]
fn approval_needs_a_valid_signature() {
    let mut k = with_near_drop();
    let msg = NftApproveMsg { linkdrop_pk: s("ed25519:AAA"), signature: vec![0u8; 10], msg: None };
    let r = k.nft_approve(&s("k"), &s("k"), &s("bob"), msg, &vec![1, 2]);
    assert_eq!(r.err(), Some(KeypomError::InvalidSignature));
}

#[test]
fn costs_of_partly_used_keys() {
    let mut assets: StrMap<InternalAsset> = StrMap::new();
    assets.insert(s("near"), InternalAsset::near);
    let mut k = contract();
    k.internal_create_drop(
        &s("f"),
        s("d"),
        vec![],
        vec![near_data(2, 10), near_data(3, 100)],
        None,
        0,
    )
    .unwrap();
    let d = k.drop_by_id.get(&s("d")).unwrap();
    assert_eq!(get_total_costs_for_key(5, &d.asset_by_id, &d.asset_data_for_uses, 0), Ok(320));
    assert_eq!(get_total_costs_for_key(3, &d.asset_by_id, &d.asset_data_for_uses, 0), Ok(300));
    assert_eq!(get_total_costs_for_key(4, &d.asset_by_id, &d.asset_data_for_uses, 0), Ok(310));
    assert_eq!(get_total_costs_for_key(1, &assets, &d.asset_data_for_uses, 0), Ok(100));
}

#[test]
fn fc_data_rules() {
    let m = MethodData {
        receiver_id: s("keypom.testnet"),
        method_name: s("play"),
        args: s("{}"),
        attached_deposit: 3,
        attached_gas: 1,
        keypom_args: None,
        receiver_to_claimer: None,
        user_args_rule: None,
    };
    assert!(FCData::new(vec![m.copy()], &s("keypom.testnet")).is_err());
    assert!(FCData::new(vec![], &s("keypom.testnet")).is_err());
    let mut bad = m.copy();
    bad.method_name = s("nft_transfer");
    assert!(FCData::new(vec![bad], &s("other.testnet")).is_err());
    let f = FCData::new(vec![m.copy(), m], &s("other.testnet")).unwrap();
    assert_eq!(f.get_yocto_refund_amount(), 6);
    assert_eq!(f.get_required_gas_for_claim(), 2 + 2 * 5 * TGAS + 2 * TGAS);
}

#[test]
fn small_helpers() {
    let mut v = s("\"abc\"");
    rem_first_and_last_char(&mut v);
    assert_eq!(v, "abc");
    assert!(vec_to_64_byte_array(vec![1; 63]).is_none());
    assert_eq!(vec_to_64_byte_array(vec![7; 64]), Some([7u8; 64]));
    assert_eq!(royalty_to_payout(250, 1_000_000), 25_000);
    assert_eq!(determine_receiver_id(&Some(true), &s("x"), &s("alice"), &s("keypom")), Ok(s("alice")));
    assert!(determine_receiver_id(&Some(true), &s("x"), &s("keypom"), &s("keypom")).is_err());
    assert_eq!(determine_receiver_id(&None, &s("bob.testnet"), &s("alice"), &s("keypom")), Ok(s("bob.testnet")));
    assert!(determine_receiver_id(&None, &s("Not Valid!"), &s("alice"), &s("keypom")).is_err());
}

#[test]
fn nft_data_refund_removes_tokens() {
    let mut n = InternalNFTData::new(s("nft.testnet"));
    n.add_to_token_ids(&s("a"));
    n.add_to_token_ids(&s("b"));
    n.add_to_token_ids(&s("c"));
    match n.nft_refund(&s("funder"), vec![s("b")]) {
        AssetClaim::NftRefund { token_ids, receiver_id, .. } => {
            assert_eq!(token_ids, vec![s("b")]);
            assert_eq!(receiver_id, "funder");
        },
        _ => panic!("expected a refund"),
    }
    assert_eq!(n.token_ids, vec![s("a"), s("c")]);
    assert_eq!(n.get_next_token_id(), Some(s("c")));
}

fn allow_cfg(list: Option<Vec<String>>) -> DropConfig {
    DropConfig { metadata: Some(s("m")), add_key_allowlist: list, delete_empty_drop: Some(false), extra_allowance_per_key: None }
}

#[test]
fn allowlist_add_and_remove() {
    let mut k = contract();
    k.internal_create_drop(&s("f"), s("d"), vec![], vec![near_data(1, 10)], None, 0).unwrap();
    assert_eq!(k.add_to_sale_allowlist(&s("x"), &s("d"), vec![s("a")]), Err(KeypomError::NotFunder));
    assert_eq!(k.add_to_sale_allowlist(&s("f"), &s("nope"), vec![s("a")]), Err(KeypomError::DropNotFound));
    assert_eq!(k.remove_from_sale_allowlist(&s("f"), &s("d"), vec![s("a")]), Err(KeypomError::NoAllowlist));
    assert_eq!(k.add_to_sale_allowlist(&s("f"), &s("d"), vec![s("a"), s("b"), s("a")]), Ok(()));
    {
        let c = k.drop_by_id.get(&s("d")).unwrap().config.as_ref().unwrap();
        assert_eq!(c.add_key_allowlist, Some(vec![s("a"), s("b")]));
        assert_eq!(c.metadata, None);
    }
    assert_eq!(k.add_keys(&s("b"), &s("d"), vec![key("ed25519:K1")], 0), Ok(10));
    assert_eq!(k.remove_from_sale_allowlist(&s("f"), &s("d"), vec![s("b"), s("zz")]), Ok(()));
    assert_eq!(
        k.drop_by_id.get(&s("d")).unwrap().config.as_ref().unwrap().add_key_allowlist,
        Some(vec![s("a")])
    );
    assert_eq!(k.add_keys(&s("b"), &s("d"), vec![key("ed25519:K2")], 0), Err(KeypomError::NotFunder));
    // the rest of an existing configuration is kept
    let mut k2 = contract();
    k2.internal_create_drop(&s("f"), s("e"), vec![], vec![near_data(1, 10)], Some(allow_cfg(None)), 0).unwrap();
    k2.add_to_sale_allowlist(&s("f"), &s("e"), vec![s("c")]).unwrap();
    let c = k2.drop_by_id.get(&s("e")).unwrap().config.as_ref().unwrap();
    assert_eq!(c.metadata, Some(s("m")));
    assert_eq!(c.delete_empty_drop, Some(false));
    assert_eq!(c.add_key_allowlist, Some(vec![s("c")]));
}

fn allowance_key(allowance: u128, last_used: u64, remaining: u64) -> AllowanceKey {
    AllowanceKey { remaining_uses: remaining, last_used, allowance, key_id: 0, pw_per_use: None, pw_per_key: None }
}

#[test]
fn claim_timestamps_charge_refused_attempts() {
    let t = TimeConfig { start: Some(100), end: Some(1000), throttle: None, interval: None };
    // refused attempts cost (used gas + 10 TGas) at the gas price
    let mut k = allowance_key(10u128.pow(24), 0, 1);
    assert!(!assert_claim_timestamps(&Some(t), Some(1), &mut k, 50, 5 * TGAS, 100_000_000));
    assert_eq!(k.allowance, 10u128.pow(24) - 15 * TGAS as u128 * 100_000_000);
    let mut k = allowance_key(10u128.pow(24), 0, 1);
    assert!(!assert_claim_timestamps(&Some(t), Some(1), &mut k, 1001, 0, 1));
    assert_eq!(k.allowance, 10u128.pow(24) - 10 * TGAS as u128);
    let mut k = allowance_key(7, 0, 1);
    assert!(assert_claim_timestamps(&Some(t), Some(1), &mut k, 500, 0, 1));
    assert_eq!(k.allowance, 7);
    assert!(assert_claim_timestamps(&None, None, &mut k, 0, 0, 1));
    assert_eq!(GAS_FOR_PANIC_OFFSET, 10 * TGAS);
}

#[test]
fn throttle_and_interval() {
    let t = TimeConfig { start: None, end: None, throttle: Some(10), interval: None };
    let mut k = allowance_key(10u128.pow(20), 0, 3);
    assert!(assert_claim_timestamps(&Some(t), Some(3), &mut k, 50, 0, 1));
    assert_eq!(k.last_used, 50);
    assert!(!assert_claim_timestamps(&Some(t), Some(3), &mut k, 55, 0, 1));
    assert_eq!(k.last_used, 50);
    assert!(assert_claim_timestamps(&Some(t), Some(3), &mut k, 60, 0, 1));
    assert_eq!(k.last_used, 60);
    // one use per interval since the start
    let iv = TimeConfig { start: Some(0), end: None, throttle: None, interval: Some(100) };
    let mut k = allowance_key(10u128.pow(20), 0, 3);
    assert!(!assert_claim_timestamps(&Some(iv), Some(3), &mut k, 50, 0, 1));
    assert!(assert_claim_timestamps(&Some(iv), Some(3), &mut k, 150, 0, 1));
    let mut k = allowance_key(10u128.pow(20), 0, 2);
    assert!(!assert_claim_timestamps(&Some(iv), Some(3), &mut k, 150, 0, 1));
    assert!(assert_claim_timestamps(&Some(iv), Some(3), &mut k, 250, 0, 1));
    // an attempt that passes the throttle is recorded even when the interval refuses it
    let both = TimeConfig { start: Some(0), end: None, throttle: Some(1), interval: Some(100) };
    let mut k = allowance_key(10u128.pow(20), 0, 3);
    assert!(!assert_claim_timestamps(&Some(both), Some(3), &mut k, 50, 0, 1));
    assert_eq!(k.last_used, 50);
}

#[test]
fn claim_args_are_checked() {
    let mut k = allowance_key(10u128.pow(20), 0, 1);
    assert!(assert_valid_args(&s("bob.testnet"), &None, &mut k, 0, 1));
    assert_eq!(k.allowance, 10u128.pow(20));
    assert!(assert_valid_args(
        &s("bob.testnet"),
        &Some(s("ed25519:8WWpRpZswPHoJn5THFdBaFdbVeSjtSrQmEcoUeaNdkKy")),
        &mut k,
        0,
        1
    ));
    assert!(!assert_valid_args(&s("Bad Account!"), &None, &mut k, TGAS, 2));
    assert_eq!(k.allowance, 10u128.pow(20) - 22 * TGAS as u128);
    assert!(!assert_valid_args(&s("bob.testnet"), &Some(s("not a key")), &mut k, 0, 1));
}

#[test]
fn external_drop_lists_assets() {
    let mut k = contract();
    let data = ExtAssetDataForUses {
        uses: 2,
        assets: vec![
            Some(ExtAsset::NFTAsset(ExtNFTData { nft_contract_id: s("nft.testnet") })),
            Some(ExtAsset::FTAsset(ExtFTData { ft_contract_id: s("ft.testnet"), registration_cost: 4, ft_amount: 9 })),
            None,
        ],
        config: None,
    };
    k.internal_create_drop(&s("f"), s("d"), vec![key("ed25519:E")], vec![data], Some(allow_cfg(Some(vec![s("z")]))), 0)
        .unwrap();
    let d = k.drop_by_id.get(&s("d")).unwrap();
    let e = d.to_external_drop(s("d"));
    assert_eq!(e.drop_id, "d");
    assert_eq!(e.funder_id, "f");
    assert_eq!(e.max_key_uses, 2);
    assert_eq!(e.next_key_id, 1);
    assert_eq!(e.nft_asset_data.len(), 1);
    assert_eq!(e.nft_asset_data[0].contract_id, "nft.testnet");
    assert_eq!(e.ft_asset_data.len(), 1);
    assert_eq!(e.ft_asset_data[0].registration_cost, 4);
    assert_eq!(e.asset_data.len(), 1);
    assert_eq!(e.asset_data[0].uses, 2);
    assert_eq!(e.asset_data[0].assets.len(), 3);
    match &e.asset_data[0].assets[1] {
        Some(ExtAsset::FTAsset(f)) => assert_eq!(f.ft_amount, 9),
        _ => panic!("expected fungible tokens"),
    }
    assert!(e.asset_data[0].assets[2].is_none());
    assert_eq!(e.drop_config.unwrap().add_key_allowlist, Some(vec![s("z")]));
}

#[test]
fn events_carry_the_standard() {
    let e = drop_creation_event(&s("f"), &s("d"));
    assert_eq!(e.standard, "keypom");
    assert_eq!(e.version, "1.0.0");
    let logs = key_logs(&s("d"), &vec![s("ed25519:A"), s("ed25519:B")]);
    assert_eq!(logs.len(), 2);
    assert_eq!(logs[1].public_key, "ed25519:B");
    match claim_event(&s("bob"), &s("ed25519:A"), &s("d"), vec![], &Some(s("ed25519:N"))).event {
        EventLogVariant::CreateAccountAndClaim(l) => assert_eq!(l.new_public_key, "ed25519:N"),
        _ => panic!("expected create_account_and_claim"),
    }
    match key_transfer_event(&s("x"), true, &s("o"), &None, &s("keypom"), &s("A"), &s("B"), &s("d"), &s("d:0")).event {
        EventLogVariant::KeyTransfer(l) => {
            assert_eq!(l.authorized_id, Some(s("x")));
            assert_eq!(l.new_owner_id, "keypom");
        },
        _ => panic!("expected a key transfer"),
    }
    let mut k = with_near_drop();
    let mut drop = k.drop_by_id.remove(&s("drop1")).unwrap();
    let mut logs = vec![e];
    internal_clear_drop_storage(&mut drop, &mut logs, &s("drop1"));
    assert_eq!(drop.asset_by_id.len(), 0);
    assert_eq!(logs.len(), 2);
    match &logs[1].event {
        EventLogVariant::DropDeletion(l) => assert_eq!(l.funder_id, "funder.testnet"),
        _ => panic!("expected a drop deletion"),
    }
}

fn obj(members: Vec<(&str, JsonValue)>) -> JsonValue {
    JsonValue::Object(members.into_iter().map(|(k, v)| (s(k), v)).collect())
}

fn num(n: &str) -> JsonValue {
    JsonValue::Number(s(n))
}

#[test]
fn merging_json_objects() {
    let mut a = obj(vec![("x", num("1")), ("o", obj(vec![("p", num("1")), ("q", num("2"))]))]);
    let b = obj(vec![("o", obj(vec![("q", num("3"))])), ("y", JsonValue::Bool(true))]);
    merge_json(&mut a, &b);
    assert_eq!(
        a,
        obj(vec![("x", num("1")), ("o", obj(vec![("p", num("1")), ("q", num("3"))])), ("y", JsonValue::Bool(true))])
    );
    let mut c = num("5");
    merge_json(&mut c, &b);
    assert_eq!(c, b);
    let mut d = obj(vec![("x", num("1"))]);
    merge_json(&mut d, &JsonValue::Null);
    assert_eq!(d, JsonValue::Null);
}

#[test]
fn user_args_rules() {
    let funder = || obj(vec![("a", num("1")), ("b", num("2"))]);
    let user = || obj(vec![("b", num("20")), ("c", num("30"))]);
    assert_eq!(handle_user_args_rules(Some(funder()), &Some(UserArgsRule::AllUser), Some(Some(user()))), Ok(user()));
    assert_eq!(
        handle_user_args_rules(Some(funder()), &Some(UserArgsRule::FunderPreferred), Some(Some(user()))),
        Ok(obj(vec![("b", num("2")), ("c", num("30")), ("a", num("1"))]))
    );
    assert_eq!(
        handle_user_args_rules(Some(funder()), &Some(UserArgsRule::UserPreferred), Some(Some(user()))),
        Ok(obj(vec![("a", num("1")), ("b", num("20")), ("c", num("30"))]))
    );
    assert_eq!(handle_user_args_rules(Some(funder()), &None, Some(Some(user()))), Ok(funder()));
    assert_eq!(handle_user_args_rules(Some(funder()), &Some(UserArgsRule::AllUser), None), Ok(funder()));
    assert!(handle_user_args_rules(None, &None, None).is_err());
    assert!(handle_user_args_rules(Some(funder()), &Some(UserArgsRule::AllUser), Some(None)).is_err());
}

#[test]
fn markers_are_replaced() {
    assert_eq!(replace_text("aXbXXc", "X", "yy"), "ayybyyyyc");
    assert_eq!(replace_text("aaa", "aa", "b"), "ba");
    let mut args = s("{\"to\":\"RECEIVER\",\"meta\":\"META\"}");
    let members = vec![
        UserMarker { key: s("receiver"), value: MarkerValue::Text(s("\"bob.near\"")) },
        UserMarker { key: s("meta"), value: MarkerValue::Object(s("{\"k\":1}")) },
        UserMarker { key: s("other"), value: MarkerValue::Other },
    ];
    assert_eq!(set_user_markers(&mut args, Some(Some(members))), Ok(()));
    assert_eq!(args, "{\"to\":\"bob.near\",\"meta\":{\"k\":1}}");
    assert!(set_user_markers(&mut args, None).is_err());
    assert_eq!(set_user_markers(&mut args, Some(None)), Ok(()));
    assert_eq!(args, "{\"to\":\"bob.near\",\"meta\":{\"k\":1}}");
}

fn method(receiver: &str, to_claimer: Option<bool>) -> MethodData {
    MethodData {
        receiver_id: s(receiver),
        method_name: s("go"),
        args: s(""),
        attached_deposit: 1,
        attached_gas: 2,
        keypom_args: None,
        receiver_to_claimer: to_claimer,
        user_args_rule: None,
    }
}

#[test]
fn function_call_claims() {
    let f = FCData::new(vec![method("a.testnet", None), method("Bad!", None), method("c.testnet", Some(true))], &s("keypom"))
        .unwrap();
    assert_eq!(initial_args(&f.methods[0]), "{}");
    assert!(applies_user_rules(&s("{}")));
    assert!(!applies_user_rules(&"x".repeat(4097)));
    assert_eq!(f.usable_fc_args(Some(vec![None, None])), None);
    assert_eq!(f.usable_fc_args(Some(vec![None, None, Some(s("{}"))])), Some(vec![None, None, Some(s("{}"))]));
    let calls = f.claim_fc_asset(vec![Ok(s("{\"x\":1}")), Ok(s("{}")), Ok(s("{}"))], &s("claimer.testnet"), &s("keypom"));
    assert_eq!(calls.len(), 2);
    assert_eq!(calls[0].receiver_id, "a.testnet");
    assert_eq!(calls[0].args, "{\"x\":1}");
    assert_eq!(calls[1].receiver_id, "claimer.testnet");
    let calls = f.claim_fc_asset(vec![Err(s("e")), Ok(s("{}")), Ok(s("{}"))], &s("keypom"), &s("keypom"));
    assert_eq!(calls.len(), 0);
}

#[test]
fn promise_results() {
    assert!(was_account_created(&Some(b"true".to_vec())));
    assert!(!was_account_created(&Some(b"false".to_vec())));
    assert!(!was_account_created(&Some(vec![])));
    assert!(!was_account_created(&None));
    assert!(check_promise_result(&Some(vec![])));
    assert!(check_promise_result(&Some(b"true".to_vec())));
    assert!(!check_promise_result(&Some(b"\"x\"".to_vec())));
    assert!(!check_promise_result(&None));
}

#[test]
fn registrations_follow_keys() {
    // deleting keys unregisters their public keys
    let mut k = with_near_drop();
    k.delete_keys(&s("funder.testnet"), &s("drop1"), Some(vec![s("ed25519:BBB")]), None, None, 0).unwrap();
    assert!(k.token_id_by_pk.get(&s("ed25519:BBB")).is_none());
    assert_eq!(k.token_id_by_pk.get(&s("ed25519:AAA")), Some(&s("drop1:0")));
    // added keys take the next nonces
    assert_eq!(k.add_keys(&s("funder.testnet"), &s("drop1"), vec![key("ed25519:CCC")], 0), Ok(2000));
    assert_eq!(k.token_id_by_pk.get(&s("ed25519:CCC")), Some(&s("drop1:2")));
    let d = k.drop_by_id.get(&s("drop1")).unwrap();
    assert_eq!(d.key_info_by_token_id.get(&s("drop1:2")).unwrap().pub_key, "ed25519:CCC");
}

#[test]
fn used_up_key_transferred_before_cleanup_leaves_a_registration() {
    let mut kd = key("ed25519:ONE");
    kd.key_owner = Some(s("alice.testnet"));
    let mut k = contract();
    k.internal_create_drop(&s("f"), s("d"), vec![kd], vec![near_data(1, 5)], None, 0).unwrap();
    let data = k.claim(&s("keypom.testnet"), &s("ed25519:ONE"), None, 300 * TGAS).unwrap();
    assert!(data.key_deleted);
    k.internal_claim_assets(&data.token_id, &s("bob")).unwrap();
    // the owner moves the used-up key to a new public key before the claim is settled
    k.internal_transfer(&s("alice.testnet"), Some(s("carol")), &s("d:0"), None, s("ed25519:TWO"), &s("keypom"), 0)
        .unwrap();
    assert_eq!(k.on_assets_claimed(&data.token_id, &vec![None], &vec![true]), Ok(true));
    assert!(k.drop_by_id.get(&s("d")).is_none());
    assert_eq!(k.token_id_by_pk.get(&s("ed25519:TWO")), Some(&s("d:0")));
}

#[test]
fn allowance_key_passwords() {
    let digest = hex::decode("2bb80d537b1da3e38bd30361aa855686bde0eacd7162fef6a25fe97bf527a25b").unwrap();
    let mut k = allowance_key(10u128.pow(20), 0, 2);
    k.pw_per_key = Some(digest.clone());
    assert!(key_password(&Some(s("736563726574")), &mut k, 1, 0, 1));
    assert_eq!(k.allowance, 10u128.pow(20));
    assert!(!key_password(&Some(s("00")), &mut k, 1, 0, 1));
    assert_eq!(k.allowance, 10u128.pow(20) - 10 * TGAS as u128);
    assert!(!key_password(&None, &mut k, 1, 0, 1));
    let mut k2 = allowance_key(10u128.pow(20), 0, 2);
    k2.pw_per_use = Some(vec![PasswordForUse { use_number: 2, pw: digest }]);
    assert!(key_password(&None, &mut k2, 1, 0, 1));
    assert!(!key_password(&None, &mut k2, 2, 0, 1));
    assert!(key_password(&Some(s("736563726574")), &mut k2, 2, 0, 1));
}

#[test]
fn attached_deposit_goes_to_the_balance() {
    let mut k = contract();
    assert_eq!(k.attached_deposit_to_user_balance(&s("a"), 5), Ok((5, 5)));
    assert_eq!(k.attached_deposit_to_user_balance(&s("a"), 3), Ok((8, 3)));
    assert_eq!(k.attached_deposit_to_user_balance(&s("a"), u128::MAX), Err(KeypomError::Overflow));
    assert_eq!(k.get_user_balance(&s("a")), 8);
}

fn text(x: &str) -> JsonValue {
    JsonValue::Str(s(x))
}

fn injected(account: Option<&str>, drop: Option<&str>) -> KeypomInjectedArgs {
    KeypomInjectedArgs {
        account_id_field: account.map(s),
        drop_id_field: drop.map(s),
        key_id_field: None,
        funder_id_field: None,
    }
}

fn keypom_args_object(account: Option<&str>, drop: Option<&str>) -> JsonValue {
    let field = |o: Option<&str>| o.map(text).unwrap_or(JsonValue::Null);
    obj(vec![
        ("account_id_field", field(account)),
        ("drop_id_field", field(drop)),
        ("key_id_field", JsonValue::Null),
        ("funder_id_field", JsonValue::Null),
    ])
}

#[test]
fn keypom_args_are_written() {
    let add = |args: JsonValue, text: &str, ka: Option<KeypomInjectedArgs>| {
        add_keypom_args(args, &s(text), ka, &s("bob.near"), &s("d1"), &s("d1:0"), &s("funder.near"))
    };
    assert_eq!(add(obj(vec![]), "{}", None), Ok(obj(vec![("keypom_args", keypom_args_object(None, None))])));
    assert_eq!(
        add(obj(vec![("a", num("1"))]), "{\"a\":1}", Some(injected(Some("receiver"), None))),
        Ok(obj(vec![
            ("a", num("1")),
            ("receiver", text("bob.near")),
            ("keypom_args", keypom_args_object(Some("receiver"), None)),
        ]))
    );
    assert_eq!(
        add(
            obj(vec![("metadata", obj(vec![("title", text("t"))]))]),
            "{\"metadata\":{\"title\":\"t\"}}",
            Some(injected(None, Some("metadata.drop")))
        ),
        Ok(obj(vec![
            ("metadata", obj(vec![("title", text("t")), ("drop", text("d1"))])),
            ("keypom_args", keypom_args_object(None, Some("metadata.drop"))),
        ]))
    );
    assert_eq!(
        add(obj(vec![]), "{}", Some(injected(Some("a.b"), None))),
        Ok(obj(vec![("a.b", text("bob.near")), ("keypom_args", keypom_args_object(Some("a.b"), None))]))
    );
    assert!(add(obj(vec![("a", num("1"))]), "{\"a\":1}", Some(injected(None, Some("metadata.drop")))).is_err());
    assert!(add(obj(vec![("metadata", num("1"))]), "{\"metadata\":1}", Some(injected(None, Some("metadata.drop")))).is_err());
    assert!(add(obj(vec![("receiver", num("1"))]), "{\"receiver\":1}", Some(injected(Some("receiver"), None))).is_err());
    assert!(add(obj(vec![("account_id", num("1"))]), "{\"account_id\":1}", Some(injected(Some("account"), None))).is_err());
    assert!(add(obj(vec![("x", text("keypom_args"))]), "{\"x\":\"keypom_args\"}", None).is_err());
    assert!(add(obj(vec![("keypom_args", num("1"))]), "{\"keypom_args\":1}", None).is_err());
    assert!(add(num("1"), "1", None).is_err());
    assert_eq!(split_field("a.b.c"), vec![s("a"), s("b"), s("c")]);
    assert_eq!(split_field("plain"), vec![s("plain")]);
}

#[test]
fn keypom_field_refused_where_its_text_occurs() {
    let field = Some(s("account"));
    let mut t = s("{}");
    assert_eq!(insert_keypom_arg(obj(vec![]), &mut t, &field, true, &s("bob.near")), Ok(obj(vec![("account", text("bob.near"))])));
    assert_eq!(t, "{\"account\":\"bob.near\"}");
    let mut t = s("{\"a\":1}");
    assert_eq!(
        insert_keypom_arg(obj(vec![("a", num("1"))]), &mut t, &field, true, &s("bob.near")),
        Ok(obj(vec![("a", num("1")), ("account", text("bob.near"))]))
    );
    assert_eq!(t, "{\"a\":1,\"account\":\"bob.near\"}");
    let mut t = s("{\"account_id\":1}");
    assert!(insert_keypom_arg(obj(vec![("account_id", num("1"))]), &mut t, &field, true, &s("bob.near")).is_err());
    assert_eq!(t, "{\"account_id\":1}");
}

#[test]
fn fc_args_steps_in_order() {
    let members = || Some(Some(vec![UserMarker { key: s("to"), value: MarkerValue::Text(s("\"bob\"")) }]));
    let mut args = s("{\"x\":\"TO\"}");
    let r = prepare_fc_args(&mut args, Ok(s("{\"x\":\"TO\",\"y\":1}")), &Some(UserArgsRule::UserPreferred), &Some(s("{}")), members());
    assert_eq!(r, Ok(()));
    assert_eq!(args, "{\"x\":\"bob\",\"y\":1}");
    let mut args = s("{\"x\":\"TO\"}");
    let r = prepare_fc_args(&mut args, Err(s("refused")), &Some(UserArgsRule::UserPreferred), &Some(s("{}")), members());
    assert_eq!(r, Err(s("refused")));
    assert_eq!(args, "{\"x\":\"TO\"}");
    let mut args = s("{\"x\":\"TO\"}");
    let r = prepare_fc_args(&mut args, Ok(s("{\"x\":\"TO\"}")), &Some(UserArgsRule::AllUser), &Some(s("{}")), members());
    assert_eq!(r, Ok(()));
    assert_eq!(args, "{\"x\":\"TO\"}");
    let long = format!("{{\"x\":\"{}\"}}", "a".repeat(5000));
    let mut args = long.clone();
    let r = prepare_fc_args(&mut args, Ok(s("{}")), &None, &None, Some(None));
    assert_eq!(r, Ok(()));
    assert_eq!(args, long);
}

#[test]
fn strmap_removal_moves_the_last_key() {
    let mut m: StrMap<u64> = StrMap::new();
    m.insert(s("a"), 1);
    m.insert(s("b"), 2);
    m.insert(s("c"), 3);
    assert_eq!(m.remove(&s("a")), Some(1));
    assert_eq!(m.keys(), vec![s("c"), s("b")]);
    assert_eq!(m.remove(&s("z")), None);
    assert_eq!(m.keys(), vec![s("c"), s("b")]);
}

#[test]
fn withdrawing_without_a_limit_takes_every_token() {
    let mut k = contract();
    let data = ExtAssetDataForUses {
        uses: 1,
        assets: vec![Some(ExtAsset::NFTAsset(ExtNFTData { nft_contract_id: s("nft.testnet") }))],
        config: None,
    };
    k.internal_create_drop(&s("f"), s("d"), vec![key("ed25519:N")], vec![data], None, 0).unwrap();
    let mut drop = k.drop_by_id.remove(&s("d")).unwrap();
    let mut asset = drop.asset_by_id.remove(&s("nft.testnet")).unwrap();
    if let InternalAsset::nft(n) = &mut asset {
        for i in 0..300 {
            n.add_to_token_ids(&format!("t{}", i));
        }
    }
    drop.asset_by_id.insert(s("nft.testnet"), asset);
    k.drop_by_id.insert(s("d"), drop);
    let w = k.withdraw_nft_tokens(&s("f"), &s("d"), &s("nft.testnet"), None, None).unwrap();
    assert_eq!(w.token_ids.len(), 300);
    assert_eq!(w.token_ids[0], s("t299"));
    assert_eq!(w.token_ids[299], s("t0"));
    let w = k.withdraw_nft_tokens(&s("f"), &s("d"), &s("nft.testnet"), None, None);
    assert_eq!(w.map(|x| x.token_ids.len()), Err(KeypomError::TokenNotFound));
}

fn near_and_nft_drop() -> Keypom {
    let mut k = contract();
    let data = ExtAssetDataForUses {
        uses: 1,
        assets: vec![
            Some(ExtAsset::NearAsset(ExtNEARData { yoctonear: 5 })),
            Some(ExtAsset::NFTAsset(ExtNFTData { nft_contract_id: s("nft.testnet") })),
        ],
        config: None,
    };
    k.internal_create_drop(&s("f"), s("d"), vec![key("ed25519:G")], vec![data], None, 0).unwrap();
    k
}

#[test]
fn claim_gas_is_the_sum_of_the_use_assets() {
    let mut k = near_and_nft_drop();
    let ids: Vec<String> = k.drop_by_id.get(&s("d")).unwrap().asset_by_id.keys();
    assert_eq!(ids.len(), 2);
    let mut expected: u64 = 0;
    for id in &ids {
        let a = k.drop_by_id.get(&s("d")).unwrap().asset_by_id.get(id).unwrap();
        expected += a.get_required_asset_gas();
    }
    let r = k.claim(&s("keypom.testnet"), &s("ed25519:G"), None, 300 * TGAS).unwrap();
    assert_eq!(r.required_asset_gas, expected);
    let mut k2 = near_and_nft_drop();
    let mut drop = k2.drop_by_id.remove(&s("d")).unwrap();
    drop.asset_by_id.remove(&s("nft.testnet"));
    k2.drop_by_id.insert(s("d"), drop);
    let r = k2.claim(&s("keypom.testnet"), &s("ed25519:G"), None, 300 * TGAS);
    assert_eq!(r.err(), Some(KeypomError::AssetNotFound));
}

#[test]
fn outside_rules_as_stated() {
    assert!(check_promise_result(&Some(b" \ttrue\r\n".to_vec())));
    assert!(!check_promise_result(&Some(b"false".to_vec())));
    assert!(!check_promise_result(&Some(b"truex".to_vec())));
    assert!(!check_promise_result(&Some(b"tru e".to_vec())));
    let receiver = |id: &str| determine_receiver_id(&None, &s(id), &s("alice"), &s("keypom"));
    assert!(receiver("a1.b-c_d").is_ok());
    assert!(receiver("a").is_err());
    assert!(receiver(&"a".repeat(65)).is_err());
    assert!(receiver(&"a".repeat(64)).is_ok());
    assert!(receiver(".ab").is_err());
    assert!(receiver("ab.").is_err());
    assert!(receiver("a..b").is_err());
    assert!(receiver("a-_b").is_err());
    assert!(receiver("Ab").is_err());
}
