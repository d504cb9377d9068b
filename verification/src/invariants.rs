//! What every operation keeps: each drop is listed among its funder's drops, and each registered
//! public key leads to a key of an existing drop that holds it. Each law below takes the state an
//! operation starts from and the state its contract says it ends in (the spec functions of its
//! `ensures`).

use vstd::prelude::*;
use crate::assets::AssetView;
use crate::claiming::drop_of;
use crate::claiming::{key_of, lookup_error, token_of};
use crate::creation::{
    add_keys_error, add_keys_state, create_drop_error, create_drop_state, key_batch_error, keys_info_map,
    keys_pk_map, new_key_info, pk_in, sum_uses, ExtKeyData,
};
use crate::token_id::{lemma_token_id_roundtrip, parse_token_id_spec, token_id_spec};
use crate::deletion::{delete_start, delete_step, delete_upto, finish_delete, partial_delete_state, DeleteState};
use crate::deposits::with_asset;
use crate::nft_keys::{approve_state, transfer_error, transfer_state};
use crate::resolution::{claim_assets_state, cleanup_state, resolved_state, ResolveState};
use crate::claiming::before_claim_state;
use crate::state::{modify_balance_spec, set_add, set_remove, DropView, KeyInfoView, KeypomView};
use crate::types::{DropConfig, UseNumber};
use crate::uses::ExtAssetDataForUses;

verus! {

/// Every drop is listed among its funder's drops.
pub open spec fn drops_indexed(s: KeypomView) -> bool {
    forall|d: Seq<char>| #[trigger]
        s.drop_by_id.contains_key(d) ==> s.drop_ids_by_funder.contains_key(s.drop_by_id[d].funder_id)
            && s.drop_ids_by_funder[s.drop_by_id[d].funder_id].contains_key(d)
}

/// Replacing a drop by one with the same funder, the lists of drops unchanged, keeps the index.
proof fn lemma_replace_drop(s: KeypomView, t: KeypomView, drop_id: Seq<char>, x: DropView)
    requires
        drops_indexed(s),
        s.drop_by_id.contains_key(drop_id),
        x.funder_id == s.drop_by_id[drop_id].funder_id,
        t.drop_by_id == s.drop_by_id.insert(drop_id, x),
        t.drop_ids_by_funder == s.drop_ids_by_funder,
    ensures
        drops_indexed(t),
{
    assert forall|d: Seq<char>| #[trigger] t.drop_by_id.contains_key(d) implies t.drop_ids_by_funder.contains_key(
        t.drop_by_id[d].funder_id,
    ) && t.drop_ids_by_funder[t.drop_by_id[d].funder_id].contains_key(d) by {
        assert(s.drop_by_id.contains_key(d));
    }
}

/// A balance change leaves drops and their lists alone.
proof fn lemma_balance_keeps(s: KeypomView, a: Seq<char>, amount: u128, decrement: bool)
    requires
        drops_indexed(s),
    ensures
        modify_balance_spec(s, a, amount, decrement) matches Some(t) ==> drops_indexed(t)
            && t.drop_by_id == s.drop_by_id && t.drop_ids_by_funder == s.drop_ids_by_funder,
{
}

/// Creating a drop lists it among its funder's drops, and keeps the others listed.
pub proof fn lemma_create_drop_keeps_index(
    s: KeypomView,
    predecessor: Seq<char>,
    drop_id: Seq<char>,
    keys: Seq<ExtKeyData>,
    ds: Seq<ExtAssetDataForUses>,
    config: Option<DropConfig>,
)
    requires
        drops_indexed(s),
    ensures
        drops_indexed(create_drop_state(s, predecessor, drop_id, keys, ds, config)),
{
    let t = create_drop_state(s, predecessor, drop_id, keys, ds, config);
    assert forall|d: Seq<char>| #[trigger] t.drop_by_id.contains_key(d) implies t.drop_ids_by_funder.contains_key(
        t.drop_by_id[d].funder_id,
    ) && t.drop_ids_by_funder[t.drop_by_id[d].funder_id].contains_key(d) by {
        if d != drop_id {
            assert(s.drop_by_id.contains_key(d));
            let f = s.drop_by_id[d].funder_id;
            assert(s.drop_ids_by_funder[f].contains_key(d));
            if f == predecessor {
                assert(set_add(s.drop_ids_by_funder, predecessor, drop_id)[f] == s.drop_ids_by_funder[f].insert(
                    drop_id,
                    (),
                ));
            }
        }
    }
}

/// Adding keys, starting a claim, claiming its assets and resolving its transfers keep every
/// drop listed under its funder.
pub proof fn lemma_claims_keep_index(
    s: KeypomView,
    drop_id: Seq<char>,
    keys: Seq<ExtKeyData>,
    pk: Seq<char>,
    t: Seq<char>,
    funder: Seq<char>,
    st: ResolveState,
)
    requires
        drops_indexed(s),
    ensures
        s.drop_by_id.contains_key(drop_id) ==> drops_indexed(add_keys_state(s, drop_id, keys)),
        s.drop_by_id.contains_key(drop_of(token_of(s, pk))) ==> drops_indexed(before_claim_state(s, pk)),
        s.drop_by_id.contains_key(drop_of(t)) ==> drops_indexed(claim_assets_state(s, t)),
        s.drop_by_id.contains_key(drop_id) ==> drops_indexed(resolved_state(s, drop_id, funder, st)),
{
    if s.drop_by_id.contains_key(drop_id) {
        let d = s.drop_by_id[drop_id];
        let a = add_keys_state(s, drop_id, keys);
        lemma_replace_drop(s, a, drop_id, a.drop_by_id[drop_id]);
        let r = resolved_state(s, drop_id, funder, st);
        lemma_replace_drop(s, r, drop_id, r.drop_by_id[drop_id]);
    }
    let dp = drop_of(token_of(s, pk));
    if s.drop_by_id.contains_key(dp) {
        let b = before_claim_state(s, pk);
        lemma_replace_drop(s, b, dp, b.drop_by_id[dp]);
    }
    if s.drop_by_id.contains_key(drop_of(t)) {
        let c = claim_assets_state(s, t);
        lemma_replace_drop(s, c, drop_of(t), c.drop_by_id[drop_of(t)]);
    }
}

/// Cleaning up after a claim keeps every drop listed under its funder: a used-up key is
/// removed, and an emptied drop with it.
pub proof fn lemma_cleanup_keeps_index(s: KeypomView, drop_id: Seq<char>, t: Seq<char>, drop_empty: bool)
    requires
        drops_indexed(s),
        s.drop_by_id.contains_key(drop_id),
    ensures
        drops_indexed(cleanup_state(s, drop_id, t, drop_empty)),
{
    let c = cleanup_state(s, drop_id, t, drop_empty);
    let d = s.drop_by_id[drop_id];
    if d.key_info_by_token_id[t].remaining_uses == 0 {
        let keys = d.key_info_by_token_id.remove(t);
        if keys.dom().len() == 0 && drop_empty {
            assert forall|x: Seq<char>| #[trigger] c.drop_by_id.contains_key(x) implies c.drop_ids_by_funder.contains_key(
                c.drop_by_id[x].funder_id,
            ) && c.drop_ids_by_funder[c.drop_by_id[x].funder_id].contains_key(x) by {
                assert(s.drop_by_id.contains_key(x));
            }
        } else {
            lemma_replace_drop(s, c, drop_id, c.drop_by_id[drop_id]);
        }
    }
}

/// The whole resolution of a claim keeps every drop listed under its funder, whether it ends
/// in a cleanup or stops at a refusal, and so does a failed account creation's refund.
pub proof fn lemma_resolution_keeps_index(
    s: KeypomView,
    drop_id: Seq<char>,
    funder: Seq<char>,
    st: ResolveState,
    t: Seq<char>,
    drop_empty: bool,
    refund: u128,
)
    requires
        drops_indexed(s),
        s.drop_by_id.contains_key(drop_id),
    ensures
        drops_indexed(resolved_state(s, drop_id, funder, st)),
        drops_indexed(cleanup_state(resolved_state(s, drop_id, funder, st), drop_id, t, drop_empty)),
        modify_balance_spec(s, funder, refund, false) matches Some(b) ==> drops_indexed(
            cleanup_state(b, drop_id, t, drop_empty),
        ),
{
    let r = resolved_state(s, drop_id, funder, st);
    lemma_replace_drop(s, r, drop_id, r.drop_by_id[drop_id]);
    lemma_cleanup_keeps_index(r, drop_id, t, drop_empty);
    lemma_balance_keeps(s, funder, refund, false);
    if let Some(b) = modify_balance_spec(s, funder, refund, false) {
        lemma_cleanup_keeps_index(b, drop_id, t, drop_empty);
    }
}

/// Deleting keys keeps every drop listed under its funder: a drop that deletion empties goes
/// from the drops and from its funder's list together. (The lists of drops are finite, as the
/// contract's maps are.)
pub proof fn lemma_delete_keeps_index(s: KeypomView, drop_id: Seq<char>, st: DeleteState, keep: bool)
    requires
        drops_indexed(s),
        s.drop_by_id.contains_key(drop_id),
        s.drop_ids_by_funder[s.drop_by_id[drop_id].funder_id].dom().finite(),
    ensures
        drops_indexed(partial_delete_state(s, drop_id, st)),
        drops_indexed(finish_delete(s, drop_id, st, keep).0),
{
    let p = partial_delete_state(s, drop_id, st);
    lemma_replace_drop(s, p, drop_id, p.drop_by_id[drop_id]);
    let d = s.drop_by_id[drop_id];
    let removed = st.keys.dom().len() == 0 && !keep;
    let s1 = KeypomView {
        token_id_by_pk: st.tokens,
        tokens_per_owner: st.owners,
        drop_by_id: if removed {
            s.drop_by_id.remove(drop_id)
        } else {
            s.drop_by_id.insert(drop_id, DropView { key_info_by_token_id: st.keys, ..d })
        },
        ..s
    };
    let s2 = if removed {
        KeypomView { drop_ids_by_funder: set_remove(s1.drop_ids_by_funder, d.funder_id, drop_id), ..s1 }
    } else {
        s1
    };
    if removed {
        assert forall|x: Seq<char>| #[trigger] s2.drop_by_id.contains_key(x) implies s2.drop_ids_by_funder.contains_key(
            s2.drop_by_id[x].funder_id,
        ) && s2.drop_ids_by_funder[s2.drop_by_id[x].funder_id].contains_key(x) by {
            assert(s.drop_by_id.contains_key(x) && x != drop_id);
            let f = s.drop_by_id[x].funder_id;
            assert(s.drop_ids_by_funder[f].contains_key(x));
            if f == d.funder_id {
                let rest = s.drop_ids_by_funder[f].remove(drop_id);
                assert(rest.contains_key(x));
                assert(rest.dom().finite());
                if rest.dom().len() == 0 {
                    rest.dom().lemma_len0_is_empty();
                    assert(rest.dom().contains(x));
                }
            }
        }
    } else {
        lemma_replace_drop(s, s2, drop_id, s2.drop_by_id[drop_id]);
    }
    lemma_balance_keeps(s2, d.funder_id, #[verifier::truncate] (st.total as u128), false);
}

/// Transferring or approving a key, receiving or returning non-fungible tokens, and changing a
/// drop's allowlist keep every drop listed under its funder.
pub proof fn lemma_key_and_asset_changes_keep_index(
    s: KeypomView,
    receiver: Option<Seq<char>>,
    t: Seq<char>,
    new_pk: Seq<char>,
    account: Seq<char>,
    drop_id: Seq<char>,
    asset_id: Seq<char>,
    a: AssetView,
    config: Option<DropConfig>,
)
    requires
        drops_indexed(s),
    ensures
        s.drop_by_id.contains_key(drop_of(t)) ==> drops_indexed(transfer_state(s, receiver, t, new_pk)),
        s.drop_by_id.contains_key(drop_of(t)) ==> drops_indexed(approve_state(s, t, account)),
        s.drop_by_id.contains_key(drop_id) ==> drops_indexed(with_asset(s, drop_id, asset_id, a)),
        s.drop_by_id.contains_key(drop_id) ==> drops_indexed(
            KeypomView {
                drop_by_id: s.drop_by_id.insert(drop_id, DropView { config, ..s.drop_by_id[drop_id] }),
                ..s
            },
        ),
{
    if s.drop_by_id.contains_key(drop_of(t)) {
        let x = transfer_state(s, receiver, t, new_pk);
        lemma_replace_drop(s, x, drop_of(t), x.drop_by_id[drop_of(t)]);
        let y = approve_state(s, t, account);
        lemma_replace_drop(s, y, drop_of(t), y.drop_by_id[drop_of(t)]);
    }
    if s.drop_by_id.contains_key(drop_id) {
        let w = with_asset(s, drop_id, asset_id, a);
        lemma_replace_drop(s, w, drop_id, w.drop_by_id[drop_id]);
        let c = KeypomView {
            drop_by_id: s.drop_by_id.insert(drop_id, DropView { config, ..s.drop_by_id[drop_id] }),
            ..s
        };
        lemma_replace_drop(s, c, drop_id, c.drop_by_id[drop_id]);
    }
}

/// Balance changes, and every change that leaves the drops and the lists of drops alone (fees,
/// settings, funder metadata, token owners), keep every drop listed under its funder.
pub proof fn lemma_other_changes_keep_index(s: KeypomView, t: KeypomView, a: Seq<char>, amount: u128, decrement: bool)
    requires
        drops_indexed(s),
    ensures
        (t.drop_by_id == s.drop_by_id && t.drop_ids_by_funder == s.drop_ids_by_funder) ==> drops_indexed(t),
        modify_balance_spec(s, a, amount, decrement) matches Some(b) ==> drops_indexed(b),
{
    lemma_balance_keeps(s, a, amount, decrement);
}

/// Adding keys whose public keys are new and distinct registers each public key under the token
/// of its nonce, leaving the others.
proof fn lemma_keys_pk_map(m: Map<Seq<char>, Seq<char>>, drop_id: Seq<char>, start: int, keys: Seq<ExtKeyData>)
    requires
        key_batch_error(m, keys, start) is None,
    ensures
        forall|i: int|
            0 <= i < keys.len() ==> #[trigger] keys_pk_map(m, drop_id, start, keys).contains_key(keys[i].public_key@)
                && keys_pk_map(m, drop_id, start, keys)[keys[i].public_key@] == token_id_spec(
                drop_id,
                (start + i) as u64,
            ),
    decreases keys.len(),
{
    if keys.len() > 0 {
        let p = keys.drop_last();
        let last = keys.last();
        assert(key_batch_error(m, p, start) is None);
        assert(!pk_in(p, last.public_key@));
        lemma_keys_pk_map(m, drop_id, start, p);
        let n = keys.len() - 1;
        assert forall|i: int|
            0 <= i < keys.len() implies #[trigger] keys_pk_map(m, drop_id, start, keys).contains_key(
            keys[i].public_key@,
        ) && keys_pk_map(m, drop_id, start, keys)[keys[i].public_key@] == token_id_spec(
            drop_id,
            (start + i) as u64,
        ) by {
            if i < n {
                assert(p[i] == keys[i]);
                assert(keys_pk_map(m, drop_id, start, p).contains_key(p[i].public_key@));
                if keys[i].public_key@ == last.public_key@ {
                    assert(p[i].public_key@ == last.public_key@);
                    assert(pk_in(p, last.public_key@));
                }
            }
        }
    }
}

/// Token IDs of one drop differ for different nonces.
proof fn lemma_token_ids_distinct(drop_id: Seq<char>, a: u64, b: u64)
    requires
        !drop_id.contains(':'),
        a != b,
    ensures
        token_id_spec(drop_id, a) != token_id_spec(drop_id, b),
{
    lemma_token_id_roundtrip(drop_id, a);
    lemma_token_id_roundtrip(drop_id, b);
}

/// Adding keys records each under the token of its nonce.
proof fn lemma_keys_info_map(
    m: Map<Seq<char>, KeyInfoView>,
    drop_id: Seq<char>,
    start: int,
    keys: Seq<ExtKeyData>,
    uses: UseNumber,
)
    requires
        !drop_id.contains(':'),
        0 <= start,
        start + keys.len() <= u64::MAX,
    ensures
        forall|i: int|
            0 <= i < keys.len() ==> keys_info_map(m, drop_id, start, keys, uses).contains_key(
                #[trigger] token_id_spec(drop_id, (start + i) as u64),
            ) && keys_info_map(m, drop_id, start, keys, uses)[token_id_spec(drop_id, (start + i) as u64)]
                == new_key_info(keys[i], uses),
    decreases keys.len(),
{
    if keys.len() > 0 {
        let p = keys.drop_last();
        lemma_keys_info_map(m, drop_id, start, p, uses);
        let n = keys.len() - 1;
        assert forall|i: int|
            0 <= i < keys.len() implies keys_info_map(m, drop_id, start, keys, uses).contains_key(
            #[trigger] token_id_spec(drop_id, (start + i) as u64),
        ) && keys_info_map(m, drop_id, start, keys, uses)[token_id_spec(drop_id, (start + i) as u64)]
            == new_key_info(keys[i], uses) by {
            if i < n {
                assert(p[i] == keys[i]);
                lemma_token_ids_distinct(drop_id, (start + i) as u64, (start + n) as u64);
            }
        }
    }
}

/// A key created with a drop can be looked up by its public key: after `internal_create_drop`
/// succeeds, each of the keys' public keys is registered under the token `drop_id:i` of its
/// place in the list, whose record is in the new drop with that public key and every use of
/// the drop left.
pub proof fn lemma_created_keys_are_registered(
    s: KeypomView,
    predecessor: Seq<char>,
    drop_id: Seq<char>,
    keys: Seq<ExtKeyData>,
    ds: Seq<ExtAssetDataForUses>,
    config: Option<DropConfig>,
    now: u64,
    i: int,
)
    requires
        create_drop_error(s, predecessor, drop_id, keys, ds, now) is None,
        0 <= i < keys.len(),
    ensures
        ({
            let s2 = create_drop_state(s, predecessor, drop_id, keys, ds, config);
            let t = token_id_spec(drop_id, i as u64);
            &&& s2.token_id_by_pk.contains_key(keys[i].public_key@)
            &&& s2.token_id_by_pk[keys[i].public_key@] == t
            &&& lookup_error(s2, t) is None
            &&& key_of(s2, t) == new_key_info(keys[i], sum_uses(ds) as u32)
            &&& key_of(s2, t).pub_key == keys[i].public_key@
        }),
{
    let s2 = create_drop_state(s, predecessor, drop_id, keys, ds, config);
    let t = token_id_spec(drop_id, i as u64);
    lemma_key_batch_bound(s.token_id_by_pk, keys, 0);
    lemma_keys_pk_map(s.token_id_by_pk, drop_id, 0, keys);
    lemma_keys_info_map(Map::empty(), drop_id, 0, keys, sum_uses(ds) as u32);
    lemma_token_id_roundtrip(drop_id, i as u64);
    assert(t[drop_id.len() as int] == ':');
    assert(t.contains(':'));
    assert(parse_token_id_spec(t) == Some((drop_id, i as u64)));
    assert(drop_of(t) == drop_id);
    assert(s2.drop_by_id.contains_key(drop_id));
    assert(token_id_spec(drop_id, (0 + i) as u64) == t);
    let km = keys_info_map(Map::empty(), drop_id, 0, keys, sum_uses(ds) as u32);
    assert(km.contains_key(token_id_spec(drop_id, (0 + i) as u64)));
    assert(s2.drop_by_id[drop_id].key_info_by_token_id == km);
    assert(s2.token_id_by_pk == keys_pk_map(s.token_id_by_pk, drop_id, 0, keys));
    assert(keys_pk_map(s.token_id_by_pk, drop_id, 0, keys).contains_key(keys[i].public_key@));
}

/// A batch of keys that is accepted fits its nonces within `u64`.
proof fn lemma_key_batch_bound(m: Map<Seq<char>, Seq<char>>, keys: Seq<ExtKeyData>, start: int)
    requires
        key_batch_error(m, keys, start) is None,
        0 <= start <= u64::MAX,
    ensures
        start + keys.len() <= u64::MAX,
{
    if keys.len() > 0 {
        assert(key_batch_error(m, keys.drop_last(), start) is None);
    }
}

/// Whether a token ID is `drop_id:n` for a nonce `n` below `next`.
pub open spec fn nonce_below(t: Seq<char>, drop_id: Seq<char>, next: u64) -> bool {
    &&& t.contains(':')
    &&& parse_token_id_spec(t) matches Some(p) && p.0 == drop_id && p.1 < next
}

/// Every registered public key leads to a key of an existing drop that holds that public key,
/// every key of a drop has a token ID of that drop with a nonce below the drop's next one, and
/// no drop ID holds a colon.
pub open spec fn keys_registered(s: KeypomView) -> bool {
    &&& forall|d: Seq<char>| #[trigger] s.drop_by_id.contains_key(d) ==> !d.contains(':')
    &&& forall|pk: Seq<char>| #[trigger]
        s.token_id_by_pk.contains_key(pk) ==> lookup_error(s, s.token_id_by_pk[pk]) is None && key_of(
            s,
            s.token_id_by_pk[pk],
        ).pub_key == pk
    &&& forall|d: Seq<char>, t: Seq<char>|
        #![trigger s.drop_by_id[d].key_info_by_token_id.contains_key(t)]
        s.drop_by_id.contains_key(d) && s.drop_by_id[d].key_info_by_token_id.contains_key(t) ==> nonce_below(
            t,
            d,
            s.drop_by_id[d].next_key_id,
        )
}

/// `t` registers a part of `s`'s public keys under the same tokens, has the same drops with
/// the same keys, public keys and next nonces.
pub open spec fn same_keys(s: KeypomView, t: KeypomView) -> bool {
    &&& forall|pk: Seq<char>| #[trigger]
        t.token_id_by_pk.contains_key(pk) ==> s.token_id_by_pk.contains_key(pk) && t.token_id_by_pk[pk]
            == s.token_id_by_pk[pk]
    &&& t.drop_by_id.dom() == s.drop_by_id.dom()
    &&& forall|d: Seq<char>| #[trigger]
        s.drop_by_id.contains_key(d) ==> {
            &&& t.drop_by_id[d].key_info_by_token_id.dom() == s.drop_by_id[d].key_info_by_token_id.dom()
            &&& t.drop_by_id[d].next_key_id == s.drop_by_id[d].next_key_id
            &&& forall|k: Seq<char>| #[trigger]
                s.drop_by_id[d].key_info_by_token_id.contains_key(k) ==> t.drop_by_id[d].key_info_by_token_id[k].pub_key
                    == s.drop_by_id[d].key_info_by_token_id[k].pub_key
        }
}

/// Changes that keep the drops, their keys and public keys, and register no new public key,
/// keep the registry.
proof fn lemma_same_keys(s: KeypomView, t: KeypomView)
    requires
        keys_registered(s),
        same_keys(s, t),
    ensures
        keys_registered(t),
{
    assert forall|pk: Seq<char>| #[trigger] t.token_id_by_pk.contains_key(pk) implies lookup_error(
        t,
        t.token_id_by_pk[pk],
    ) is None && key_of(t, t.token_id_by_pk[pk]).pub_key == pk by {
        assert(s.token_id_by_pk.contains_key(pk));
        let tk = s.token_id_by_pk[pk];
        assert(s.drop_by_id.contains_key(drop_of(tk)));
        assert(s.drop_by_id[drop_of(tk)].key_info_by_token_id.contains_key(tk));
        assert(t.drop_by_id.contains_key(drop_of(tk)));
        assert(t.drop_by_id[drop_of(tk)].key_info_by_token_id.contains_key(tk));
    }
    assert forall|d: Seq<char>, k: Seq<char>|
        t.drop_by_id.contains_key(d) && t.drop_by_id[d].key_info_by_token_id.contains_key(k) implies nonce_below(
        k,
        d,
        t.drop_by_id[d].next_key_id,
    ) by {
        assert(s.drop_by_id.contains_key(d));
        assert(s.drop_by_id[d].key_info_by_token_id.contains_key(k));
    }
}

/// Replacing one key of a drop by a record with the same public key, and dropping registrations,
/// keeps the registry.
proof fn lemma_replace_key(s: KeypomView, t: KeypomView, drop_id: Seq<char>, tk: Seq<char>, k2: KeyInfoView)
    requires
        keys_registered(s),
        s.drop_by_id.contains_key(drop_id),
        s.drop_by_id[drop_id].key_info_by_token_id.contains_key(tk),
        k2.pub_key == s.drop_by_id[drop_id].key_info_by_token_id[tk].pub_key,
        t.drop_by_id == s.drop_by_id.insert(
            drop_id,
            DropView {
                key_info_by_token_id: s.drop_by_id[drop_id].key_info_by_token_id.insert(tk, k2),
                ..s.drop_by_id[drop_id]
            },
        ),
        forall|pk: Seq<char>| #[trigger]
            t.token_id_by_pk.contains_key(pk) ==> s.token_id_by_pk.contains_key(pk) && t.token_id_by_pk[pk]
                == s.token_id_by_pk[pk],
    ensures
        keys_registered(t),
{
    assert(t.drop_by_id.dom() =~= s.drop_by_id.dom());
    assert forall|d: Seq<char>| #[trigger] s.drop_by_id.contains_key(d) implies {
        &&& t.drop_by_id[d].key_info_by_token_id.dom() == s.drop_by_id[d].key_info_by_token_id.dom()
        &&& t.drop_by_id[d].next_key_id == s.drop_by_id[d].next_key_id
        &&& forall|k: Seq<char>| #[trigger]
            s.drop_by_id[d].key_info_by_token_id.contains_key(k) ==> t.drop_by_id[d].key_info_by_token_id[k].pub_key
                == s.drop_by_id[d].key_info_by_token_id[k].pub_key
    } by {
        if d == drop_id {
            assert(t.drop_by_id[d].key_info_by_token_id.dom() =~= s.drop_by_id[d].key_info_by_token_id.dom());
        }
    }
    lemma_same_keys(s, t);
}

/// Replacing a drop by one with the same keys and next nonce keeps the registry.
proof fn lemma_replace_drop_keys(s: KeypomView, t: KeypomView, drop_id: Seq<char>, x: DropView)
    requires
        keys_registered(s),
        s.drop_by_id.contains_key(drop_id),
        x.key_info_by_token_id == s.drop_by_id[drop_id].key_info_by_token_id,
        x.next_key_id == s.drop_by_id[drop_id].next_key_id,
        t.drop_by_id == s.drop_by_id.insert(drop_id, x),
        t.token_id_by_pk == s.token_id_by_pk,
    ensures
        keys_registered(t),
{
    assert(t.drop_by_id.dom() =~= s.drop_by_id.dom());
    lemma_same_keys(s, t);
}

/// Starting a claim, claiming its assets, resolving its transfers, approving an account for a
/// key, receiving or returning non-fungible tokens, changing an allowlist, and every change that
/// leaves drops and registrations alone keep every registered public key leading to its key.
pub proof fn lemma_claims_keep_registry(
    s: KeypomView,
    pk: Seq<char>,
    t: Seq<char>,
    drop_id: Seq<char>,
    funder: Seq<char>,
    st: ResolveState,
    account: Seq<char>,
    asset_id: Seq<char>,
    a: AssetView,
    config: Option<DropConfig>,
    other: KeypomView,
    amount: u128,
    decrement: bool,
)
    requires
        keys_registered(s),
    ensures
        s.token_id_by_pk.contains_key(pk) ==> keys_registered(before_claim_state(s, pk)),
        s.drop_by_id.contains_key(drop_of(t)) ==> keys_registered(claim_assets_state(s, t)),
        s.drop_by_id.contains_key(drop_id) ==> keys_registered(resolved_state(s, drop_id, funder, st)),
        lookup_error(s, t) is None ==> keys_registered(approve_state(s, t, account)),
        s.drop_by_id.contains_key(drop_id) ==> keys_registered(with_asset(s, drop_id, asset_id, a)),
        s.drop_by_id.contains_key(drop_id) ==> keys_registered(
            KeypomView {
                drop_by_id: s.drop_by_id.insert(drop_id, DropView { config, ..s.drop_by_id[drop_id] }),
                ..s
            },
        ),
        (other.drop_by_id == s.drop_by_id && other.token_id_by_pk == s.token_id_by_pk) ==> keys_registered(other),
        modify_balance_spec(s, funder, amount, decrement) matches Some(b) ==> keys_registered(b),
{
    if s.token_id_by_pk.contains_key(pk) {
        let tk = token_of(s, pk);
        let b = before_claim_state(s, pk);
        let k = key_of(s, tk);
        lemma_replace_key(
            s,
            b,
            drop_of(tk),
            tk,
            KeyInfoView { remaining_uses: (k.remaining_uses - 1) as u32, ..k },
        );
    }
    if s.drop_by_id.contains_key(drop_of(t)) {
        let c = claim_assets_state(s, t);
        lemma_replace_drop_keys(s, c, drop_of(t), c.drop_by_id[drop_of(t)]);
    }
    if lookup_error(s, t) is None {
        let y = approve_state(s, t, account);
        let k = key_of(s, t);
        lemma_replace_key(
            s,
            y,
            drop_of(t),
            t,
            KeyInfoView {
                approved_account_ids: k.approved_account_ids.insert(account, k.next_approval_id),
                next_approval_id: (k.next_approval_id + 1) as u64,
                ..k
            },
        );
    }
    if s.drop_by_id.contains_key(drop_id) {
        let r = resolved_state(s, drop_id, funder, st);
        lemma_replace_drop_keys(s, r, drop_id, r.drop_by_id[drop_id]);
        let w = with_asset(s, drop_id, asset_id, a);
        lemma_replace_drop_keys(s, w, drop_id, w.drop_by_id[drop_id]);
        let c = KeypomView {
            drop_by_id: s.drop_by_id.insert(drop_id, DropView { config, ..s.drop_by_id[drop_id] }),
            ..s
        };
        lemma_replace_drop_keys(s, c, drop_id, c.drop_by_id[drop_id]);
    }
    if other.drop_by_id == s.drop_by_id && other.token_id_by_pk == s.token_id_by_pk {
        lemma_same_keys(s, other);
    }
    if let Some(b) = modify_balance_spec(s, funder, amount, decrement) {
        lemma_same_keys(s, b);
    }
}

/// Transferring a key keeps every registered public key leading to its key: the new public key
/// leads to the transferred key, the old one no longer leads anywhere.
pub proof fn lemma_transfer_keeps_registry(
    s: KeypomView,
    sender: Seq<char>,
    receiver: Option<Seq<char>>,
    t: Seq<char>,
    approval_id: Option<u64>,
    new_pk: Seq<char>,
    current: Seq<char>,
    now: u64,
)
    requires
        keys_registered(s),
        transfer_error(s, sender, t, approval_id, new_pk, current, now) is None,
    ensures
        keys_registered(transfer_state(s, receiver, t, new_pk)),
        transfer_state(s, receiver, t, new_pk).token_id_by_pk[new_pk] == t,
        !transfer_state(s, receiver, t, new_pk).token_id_by_pk.contains_key(key_of(s, t).pub_key)
            || key_of(s, t).pub_key == new_pk,
{
    let x = transfer_state(s, receiver, t, new_pk);
    let dd = drop_of(t);
    let k = key_of(s, t);
    assert(x.drop_by_id.dom() =~= s.drop_by_id.dom());
    assert forall|pk: Seq<char>| #[trigger] x.token_id_by_pk.contains_key(pk) implies lookup_error(
        x,
        x.token_id_by_pk[pk],
    ) is None && key_of(x, x.token_id_by_pk[pk]).pub_key == pk by {
        if pk != new_pk {
            assert(s.token_id_by_pk.contains_key(pk) && pk != k.pub_key);
            let tk = s.token_id_by_pk[pk];
            assert(x.token_id_by_pk[pk] == tk);
            assert(key_of(s, tk).pub_key == pk);
            assert(tk != t);
            assert(s.drop_by_id.contains_key(drop_of(tk)));
        }
    }
    assert forall|d: Seq<char>, kk: Seq<char>|
        x.drop_by_id.contains_key(d) && x.drop_by_id[d].key_info_by_token_id.contains_key(kk) implies nonce_below(
        kk,
        d,
        x.drop_by_id[d].next_key_id,
    ) by {
        assert(s.drop_by_id.contains_key(d));
        assert(s.drop_by_id[d].key_info_by_token_id.contains_key(kk));
    }
}

/// Cleaning up after a claim keeps every registered public key leading to its key, provided no
/// public key is registered for the used-up key. (The claim that used a key up unregistered its
/// public key; transferring the used-up key before the clean-up registers a new one, which then
/// leads nowhere.) The drop's keys are finite, as the contract's maps are.
pub proof fn lemma_cleanup_keeps_registry(s: KeypomView, drop_id: Seq<char>, t: Seq<char>, drop_empty: bool)
    requires
        keys_registered(s),
        s.drop_by_id.contains_key(drop_id),
        s.drop_by_id[drop_id].key_info_by_token_id.dom().finite(),
        forall|pk: Seq<char>| #[trigger] s.token_id_by_pk.contains_key(pk) ==> s.token_id_by_pk[pk] != t,
    ensures
        keys_registered(cleanup_state(s, drop_id, t, drop_empty)),
{
    let c = cleanup_state(s, drop_id, t, drop_empty);
    let d = s.drop_by_id[drop_id];
    if d.key_info_by_token_id[t].remaining_uses == 0 {
        let keys = d.key_info_by_token_id.remove(t);
        assert forall|pk: Seq<char>| #[trigger] c.token_id_by_pk.contains_key(pk) implies lookup_error(
            c,
            c.token_id_by_pk[pk],
        ) is None && key_of(c, c.token_id_by_pk[pk]).pub_key == pk by {
            let tk = s.token_id_by_pk[pk];
            assert(tk != t);
            assert(s.drop_by_id.contains_key(drop_of(tk)));
            if drop_of(tk) == drop_id {
                assert(keys.contains_key(tk));
                if keys.dom().len() == 0 {
                    keys.dom().lemma_len0_is_empty();
                    assert(keys.dom().contains(tk));
                }
            }
        }
        assert forall|dd: Seq<char>, kk: Seq<char>|
            c.drop_by_id.contains_key(dd) && c.drop_by_id[dd].key_info_by_token_id.contains_key(kk) implies nonce_below(
            kk,
            dd,
            c.drop_by_id[dd].next_key_id,
        ) by {
            assert(s.drop_by_id.contains_key(dd));
            assert(s.drop_by_id[dd].key_info_by_token_id.contains_key(kk));
        }
    }
}

/// Adding keys leaves the registrations of other public keys alone.
proof fn lemma_keys_pk_map_others(
    m: Map<Seq<char>, Seq<char>>,
    drop_id: Seq<char>,
    start: int,
    keys: Seq<ExtKeyData>,
    pk: Seq<char>,
)
    requires
        !pk_in(keys, pk),
    ensures
        keys_pk_map(m, drop_id, start, keys).contains_key(pk) == m.contains_key(pk),
        keys_pk_map(m, drop_id, start, keys)[pk] == m[pk],
    decreases keys.len(),
{
    if keys.len() > 0 {
        let p = keys.drop_last();
        assert(!pk_in(p, pk)) by {
            if pk_in(p, pk) {
                let j = choose|j: int| 0 <= j < p.len() && (#[trigger] p[j]).public_key@ == pk;
                assert(keys[j] == p[j]);
            }
        }
        assert(keys.last().public_key@ != pk) by {
            if keys.last().public_key@ == pk {
                assert(keys[keys.len() - 1].public_key@ == pk);
            }
        }
        lemma_keys_pk_map_others(m, drop_id, start, p, pk);
    }
}

/// The token of the `i`-th of keys added from nonce `start`.
pub open spec fn nth_token(drop_id: Seq<char>, start: int, i: int) -> Seq<char> {
    token_id_spec(drop_id, (start + i) as u64)
}

/// The keys added are recorded under the tokens of their nonces and nowhere else.
proof fn lemma_keys_info_map_dom(
    m: Map<Seq<char>, KeyInfoView>,
    drop_id: Seq<char>,
    start: int,
    keys: Seq<ExtKeyData>,
    uses: UseNumber,
    tk: Seq<char>,
)
    ensures
        keys_info_map(m, drop_id, start, keys, uses).contains_key(tk) ==> m.contains_key(tk) || exists|i: int|
            0 <= i < keys.len() && tk == #[trigger] nth_token(drop_id, start, i),
        (!exists|i: int| 0 <= i < keys.len() && tk == #[trigger] nth_token(drop_id, start, i)) ==> (
        keys_info_map(m, drop_id, start, keys, uses).contains_key(tk) == m.contains_key(tk) && keys_info_map(
            m,
            drop_id,
            start,
            keys,
            uses,
        )[tk] == m[tk]),
    decreases keys.len(),
{
    if keys.len() > 0 {
        let p = keys.drop_last();
        lemma_keys_info_map_dom(m, drop_id, start, p, uses, tk);
        let n = keys.len() - 1;
        if keys_info_map(m, drop_id, start, keys, uses).contains_key(tk) && !m.contains_key(tk) {
            if tk == nth_token(drop_id, start, n) {
            } else {
                let i = choose|i: int| 0 <= i < p.len() && tk == #[trigger] nth_token(drop_id, start, i);
                assert(0 <= i < keys.len());
            }
        }
        assert(nth_token(drop_id, start, n) == token_id_spec(drop_id, (start + n) as u64));
        if !exists|i: int| 0 <= i < keys.len() && tk == #[trigger] nth_token(drop_id, start, i) {
            assert(tk != nth_token(drop_id, start, n));
        }
    }
}

/// Creating a drop keeps every registered public key leading to its key: the old ones still
/// do, and each new one leads to its new key.
pub proof fn lemma_create_drop_keeps_registry(
    s: KeypomView,
    predecessor: Seq<char>,
    drop_id: Seq<char>,
    keys: Seq<ExtKeyData>,
    ds: Seq<ExtAssetDataForUses>,
    config: Option<DropConfig>,
    now: u64,
)
    requires
        keys_registered(s),
        create_drop_error(s, predecessor, drop_id, keys, ds, now) is None,
    ensures
        keys_registered(create_drop_state(s, predecessor, drop_id, keys, ds, config)),
{
    let s2 = create_drop_state(s, predecessor, drop_id, keys, ds, config);
    let uses = sum_uses(ds) as u32;
    lemma_key_batch_bound(s.token_id_by_pk, keys, 0);
    lemma_keys_pk_map(s.token_id_by_pk, drop_id, 0, keys);
    lemma_keys_info_map(Map::empty(), drop_id, 0, keys, uses);
    assert(!s.drop_by_id.contains_key(drop_id));
    assert forall|pk: Seq<char>| #[trigger] s2.token_id_by_pk.contains_key(pk) implies lookup_error(
        s2,
        s2.token_id_by_pk[pk],
    ) is None && key_of(s2, s2.token_id_by_pk[pk]).pub_key == pk by {
        if pk_in(keys, pk) {
            let i = choose|i: int| 0 <= i < keys.len() && (#[trigger] keys[i]).public_key@ == pk;
            lemma_created_keys_are_registered(s, predecessor, drop_id, keys, ds, config, now, i);
        } else {
            lemma_keys_pk_map_others(s.token_id_by_pk, drop_id, 0, keys, pk);
            let tk = s.token_id_by_pk[pk];
            assert(s.drop_by_id.contains_key(drop_of(tk)));
            assert(drop_of(tk) != drop_id);
        }
    }
    assert forall|dd: Seq<char>, kk: Seq<char>|
        s2.drop_by_id.contains_key(dd) && s2.drop_by_id[dd].key_info_by_token_id.contains_key(kk) implies nonce_below(
        kk,
        dd,
        s2.drop_by_id[dd].next_key_id,
    ) by {
        if dd == drop_id {
            lemma_keys_info_map_dom(Map::empty(), drop_id, 0, keys, uses, kk);
            let i = choose|i: int| 0 <= i < keys.len() && kk == #[trigger] nth_token(drop_id, 0, i);
            lemma_token_id_roundtrip(drop_id, i as u64);
            assert(kk[drop_id.len() as int] == ':');
        } else {
            assert(s.drop_by_id[dd].key_info_by_token_id.contains_key(kk));
        }
    }
}

/// Adding keys to a drop keeps every registered public key leading to its key: the old ones
/// still do (the new keys take nonces no key has), and each new one leads to its new key.
pub proof fn lemma_add_keys_keeps_registry(
    s: KeypomView,
    predecessor: Seq<char>,
    drop_id: Seq<char>,
    keys: Seq<ExtKeyData>,
    now: u64,
)
    requires
        keys_registered(s),
        add_keys_error(s, predecessor, drop_id, keys, now) is None,
    ensures
        keys_registered(add_keys_state(s, drop_id, keys)),
{
    let s2 = add_keys_state(s, drop_id, keys);
    let d = s.drop_by_id[drop_id];
    let start = d.next_key_id as int;
    assert(key_batch_error(s.token_id_by_pk, keys, start) is None);
    lemma_key_batch_bound(s.token_id_by_pk, keys, start);
    lemma_keys_pk_map(s.token_id_by_pk, drop_id, start, keys);
    lemma_keys_info_map(d.key_info_by_token_id, drop_id, start, keys, d.max_key_uses);
    assert(!drop_id.contains(':'));
    let km = keys_info_map(d.key_info_by_token_id, drop_id, start, keys, d.max_key_uses);
    assert(s2.drop_by_id[drop_id].key_info_by_token_id == km);
    // the keys the drop had keep their records
    assert forall|kk: Seq<char>| #[trigger] d.key_info_by_token_id.contains_key(kk) implies km.contains_key(kk)
        && km[kk] == d.key_info_by_token_id[kk] by {
        assert(nonce_below(kk, drop_id, d.next_key_id));
        assert forall|i: int| 0 <= i < keys.len() implies kk != #[trigger] nth_token(drop_id, start, i) by {
            lemma_token_id_roundtrip(drop_id, (start + i) as u64);
        }
        lemma_keys_info_map_dom(d.key_info_by_token_id, drop_id, start, keys, d.max_key_uses, kk);
    }
    assert forall|pk: Seq<char>| #[trigger] s2.token_id_by_pk.contains_key(pk) implies lookup_error(
        s2,
        s2.token_id_by_pk[pk],
    ) is None && key_of(s2, s2.token_id_by_pk[pk]).pub_key == pk by {
        if pk_in(keys, pk) {
            let i = choose|i: int| 0 <= i < keys.len() && (#[trigger] keys[i]).public_key@ == pk;
            let tk = token_id_spec(drop_id, (start + i) as u64);
            lemma_token_id_roundtrip(drop_id, (start + i) as u64);
            assert(tk[drop_id.len() as int] == ':');
            assert(s2.token_id_by_pk[pk] == tk);
            assert(km.contains_key(tk));
        } else {
            lemma_keys_pk_map_others(s.token_id_by_pk, drop_id, start, keys, pk);
            let tk = s.token_id_by_pk[pk];
            assert(s.drop_by_id.contains_key(drop_of(tk)));
            if drop_of(tk) == drop_id {
                assert(d.key_info_by_token_id.contains_key(tk));
            }
        }
    }
    assert forall|dd: Seq<char>, kk: Seq<char>|
        s2.drop_by_id.contains_key(dd) && s2.drop_by_id[dd].key_info_by_token_id.contains_key(kk) implies nonce_below(
        kk,
        dd,
        s2.drop_by_id[dd].next_key_id,
    ) by {
        if dd == drop_id {
            lemma_keys_info_map_dom(d.key_info_by_token_id, drop_id, start, keys, d.max_key_uses, kk);
            if !d.key_info_by_token_id.contains_key(kk) {
                let i = choose|i: int| 0 <= i < keys.len() && kk == #[trigger] nth_token(drop_id, start, i);
                lemma_token_id_roundtrip(drop_id, (start + i) as u64);
                assert(kk[drop_id.len() as int] == ':');
            }
        } else {
            assert(s.drop_by_id[dd].key_info_by_token_id.contains_key(kk));
        }
    }
}

/// Deleting one key keeps the registry: the public key and the key it leads to go together.
proof fn lemma_delete_step_keeps_registry(s: KeypomView, drop_id: Seq<char>, st: DeleteState, d: DropView, now: u64, pk: Seq<char>)
    requires
        keys_registered(partial_delete_state(s, drop_id, st)),
        s.drop_by_id.contains_key(drop_id),
        st.keys.dom().finite(),
        delete_step(st, d, now, pk) is Ok,
    ensures
        keys_registered(partial_delete_state(s, drop_id, delete_step(st, d, now, pk)->Ok_0)),
        delete_step(st, d, now, pk)->Ok_0.keys.dom().finite(),
{
    let p = partial_delete_state(s, drop_id, st);
    let st2 = delete_step(st, d, now, pk)->Ok_0;
    let q = partial_delete_state(s, drop_id, st2);
    let tk = st.tokens[pk];
    assert(p.token_id_by_pk.contains_key(pk));
    assert(p.drop_by_id.contains_key(drop_id));
    assert(p.drop_by_id[drop_id].key_info_by_token_id.contains_key(tk));
    assert(nonce_below(tk, drop_id, p.drop_by_id[drop_id].next_key_id));
    assert(drop_of(tk) == drop_id);
    assert(st.keys[tk].pub_key == pk);
    assert(st2.keys == st.keys.remove(tk));
    assert(st2.tokens == st.tokens.remove(pk));
    assert forall|pk2: Seq<char>| #[trigger] q.token_id_by_pk.contains_key(pk2) implies lookup_error(
        q,
        q.token_id_by_pk[pk2],
    ) is None && key_of(q, q.token_id_by_pk[pk2]).pub_key == pk2 by {
        assert(p.token_id_by_pk.contains_key(pk2) && pk2 != pk);
        let tk2 = p.token_id_by_pk[pk2];
        assert(key_of(p, tk2).pub_key == pk2);
        assert(p.drop_by_id.contains_key(drop_of(tk2)));
        if drop_of(tk2) == drop_id {
            assert(tk2 != tk);
        }
    }
    assert forall|dd: Seq<char>, kk: Seq<char>|
        q.drop_by_id.contains_key(dd) && q.drop_by_id[dd].key_info_by_token_id.contains_key(kk) implies nonce_below(
        kk,
        dd,
        q.drop_by_id[dd].next_key_id,
    ) by {
        assert(p.drop_by_id.contains_key(dd));
        assert(p.drop_by_id[dd].key_info_by_token_id.contains_key(kk));
    }
}

/// Deleting the first `k` keys of a list keeps the registry, however far it gets.
proof fn lemma_delete_upto_keeps_registry(s: KeypomView, drop_id: Seq<char>, d: DropView, now: u64, pks: Seq<Seq<char>>, k: int)
    requires
        keys_registered(s),
        s.drop_by_id.contains_key(drop_id),
        s.drop_by_id[drop_id].key_info_by_token_id.dom().finite(),
    ensures
        keys_registered(partial_delete_state(s, drop_id, delete_upto(delete_start(s, drop_id), d, now, pks, k).0)),
        delete_upto(delete_start(s, drop_id), d, now, pks, k).0.keys.dom().finite(),
    decreases k,
{
    if k <= 0 {
        let p = partial_delete_state(s, drop_id, delete_start(s, drop_id));
        assert(p.drop_by_id =~= s.drop_by_id);
        lemma_same_keys(s, p);
    } else {
        lemma_delete_upto_keeps_registry(s, drop_id, d, now, pks, k - 1);
        let (st, e) = delete_upto(delete_start(s, drop_id), d, now, pks, k - 1);
        if e is None {
            if delete_step(st, d, now, pks[k - 1]) is Ok {
                lemma_delete_step_keeps_registry(s, drop_id, st, d, now, pks[k - 1]);
            }
        }
    }
}

/// Deleting keys keeps every registered public key leading to its key: a deleted key's public
/// key is unregistered with it, whether the deletion ends or stops at a refusal. The drop's keys
/// are finite, as the contract's maps are.
pub proof fn lemma_delete_keeps_registry(
    s: KeypomView,
    drop_id: Seq<char>,
    d: DropView,
    now: u64,
    pks: Seq<Seq<char>>,
    keep: bool,
)
    requires
        keys_registered(s),
        s.drop_by_id.contains_key(drop_id),
        s.drop_by_id[drop_id].key_info_by_token_id.dom().finite(),
    ensures
        ({
            let st = delete_upto(delete_start(s, drop_id), d, now, pks, pks.len() as int).0;
            &&& keys_registered(partial_delete_state(s, drop_id, st))
            &&& keys_registered(finish_delete(s, drop_id, st, keep).0)
        }),
{
    let st = delete_upto(delete_start(s, drop_id), d, now, pks, pks.len() as int).0;
    lemma_delete_upto_keeps_registry(s, drop_id, d, now, pks, pks.len() as int);
    let p = partial_delete_state(s, drop_id, st);
    let dv = s.drop_by_id[drop_id];
    let removed = st.keys.dom().len() == 0 && !keep;
    let s1 = KeypomView {
        token_id_by_pk: st.tokens,
        tokens_per_owner: st.owners,
        drop_by_id: if removed {
            s.drop_by_id.remove(drop_id)
        } else {
            s.drop_by_id.insert(drop_id, DropView { key_info_by_token_id: st.keys, ..dv })
        },
        ..s
    };
    if removed {
        assert forall|pk: Seq<char>| #[trigger] s1.token_id_by_pk.contains_key(pk) implies lookup_error(
            s1,
            s1.token_id_by_pk[pk],
        ) is None && key_of(s1, s1.token_id_by_pk[pk]).pub_key == pk by {
            let tk = p.token_id_by_pk[pk];
            assert(p.token_id_by_pk.contains_key(pk));
            assert(p.drop_by_id.contains_key(drop_of(tk)));
            if drop_of(tk) == drop_id {
                assert(st.keys.contains_key(tk));
                st.keys.dom().lemma_len0_is_empty();
                assert(st.keys.dom().contains(tk));
            }
        }
        assert forall|dd: Seq<char>, kk: Seq<char>|
            s1.drop_by_id.contains_key(dd) && s1.drop_by_id[dd].key_info_by_token_id.contains_key(kk) implies nonce_below(
            kk,
            dd,
            s1.drop_by_id[dd].next_key_id,
        ) by {
            assert(p.drop_by_id.contains_key(dd));
            assert(p.drop_by_id[dd].key_info_by_token_id.contains_key(kk));
        }
    } else {
        assert(s1.drop_by_id =~= p.drop_by_id);
        lemma_same_keys(p, s1);
    }
    let s2 = if removed {
        KeypomView { drop_ids_by_funder: set_remove(s1.drop_ids_by_funder, dv.funder_id, drop_id), ..s1 }
    } else {
        s1
    };
    lemma_same_keys(s1, s2);
    if let Some(s3) = modify_balance_spec(s2, dv.funder_id, #[verifier::truncate] (st.total as u128), false) {
        lemma_same_keys(s2, s3);
    }
}

} // verus!
