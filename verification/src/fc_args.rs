//! Keypom arguments written into the JSON arguments of function calls and account creations.

use vstd::prelude::*;
use crate::assets::str_seq;
use crate::helpers::{contains_text, text_contains};
use crate::state::opt_view;
use crate::json::{find_key, find_member, json_view, lemma_find_key_range, lemma_object_view, members_view, JsonValue, JsonView};
use crate::token_id::{find_char, first_index_of, lemma_first_index_of};
use crate::types::{AccountId, DropId, KeypomInjectedArgs};

verus! {

/// Text with a piece inserted before its last character.
pub open spec fn insert_before_last(s: Seq<char>, piece: Seq<char>) -> Seq<char> {
    s.take(s.len() - 1) + piece + seq![s.last()]
}

/// The JSON member `"field":"value"`, preceded by a comma unless it is the first.
pub open spec fn json_member(first: bool, field: Seq<char>, value: Seq<char>) -> Seq<char> {
    (if first {
        Seq::empty()
    } else {
        seq![',']
    }) + seq!['"'] + field + seq!['"', ':', '"'] + value + seq!['"']
}

/// The text `{}`.
pub open spec fn empty_object() -> Seq<char> {
    seq!['{', '}']
}

/// Insert a piece before the last character of a text.
fn insert_before_last_char(s: &mut String, piece: &String)
    requires
        old(s)@.len() >= 1,
    ensures
        final(s)@ == insert_before_last(old(s)@, piece@),
{
    let n = s.as_str().unicode_len();
    let mut r = String::from_str(s.as_str().substring_char(0, n - 1));
    r.append(piece.as_str());
    r.append(s.as_str().substring_char(n - 1, n));
    proof {
        assert(s@.subrange(n - 1, n as int) =~= seq![s@.last()]);
        assert(s@.subrange(0, n - 1) =~= s@.take(n - 1));
        assert(r@ =~= insert_before_last(s@, piece@));
    }
    *s = r;
}

/// The JSON member `"field":"value"`, preceded by a comma unless it is the first.
fn make_member(first: bool, field: &String, value: &String) -> (m: String)
    ensures
        m@ == json_member(first, field@, value@),
{
    let mut m = if first {
        String::new()
    } else {
        String::from_str(",")
    };
    m.append("\"");
    m.append(field.as_str());
    m.append("\":\"");
    m.append(value.as_str());
    m.append("\"");
    proof {
        reveal_strlit(",");
        reveal_strlit("\"");
        reveal_strlit("\":\"");
        assert(m@ =~= json_member(first, field@, value@));
    }
    m
}

/// Whether the text is `{}`.
fn is_empty_object(s: &String) -> (b: bool)
    ensures
        b == (s@ == empty_object()),
{
    let t = s.as_str();
    if t.unicode_len() != 2 {
        return false;
    }
    let b = t.get_char(0) == '{' && t.get_char(1) == '}';
    proof {
        if b {
            assert(s@ =~= empty_object());
        }
    }
    b
}

/// The member `"keypom_args":` followed by the Keypom arguments' JSON text, preceded by a comma
/// unless the object it goes into is empty.
pub open spec fn keypom_args_member(first: bool, ka_json: Seq<char>) -> Seq<char> {
    (if first {
        Seq::empty()
    } else {
        seq![',']
    }) + keypom_args_key() + seq![':'] + ka_json
}

/// The text `"keypom_args"`.
pub open spec fn keypom_args_key() -> Seq<char> {
    seq!['"', 'k', 'e', 'y', 'p', 'o', 'm', '_', 'a', 'r', 'g', 's', '"']
}

/// The Keypom arguments, or none of their fields when absent.
pub open spec fn effective_keypom_args(ka: Option<KeypomInjectedArgs>) -> KeypomInjectedArgs {
    match ka {
        Some(a) => a,
        None => KeypomInjectedArgs {
            account_id_field: None,
            drop_id_field: None,
            key_id_field: None,
            funder_id_field: None,
        },
    }
}

/// The member `"keypom_args":` with the Keypom arguments' JSON text, with a leading comma unless
/// it is the first member.
fn make_keypom_args_member(first: bool, keypom_args_json: &String) -> (m: String)
    ensures
        m@ == keypom_args_member(first, keypom_args_json@),
{
    let mut m = if first {
        String::from_str("\"keypom_args\":")
    } else {
        String::from_str(",\"keypom_args\":")
    };
    m.append(keypom_args_json.as_str());
    proof {
        reveal_strlit("\"keypom_args\":");
        reveal_strlit(",\"keypom_args\":");
        assert(m@ =~= keypom_args_member(first, keypom_args_json@));
    }
    m
}

/// The payload of an account creation with the Keypom arguments appended (given as their JSON
/// text), then each field asked for with its value.
pub open spec fn ca_payload(
    payload: Seq<char>,
    ka: KeypomInjectedArgs,
    ka_json: Seq<char>,
    new_account_id: Seq<char>,
    drop_id: Seq<char>,
    key_id: Seq<char>,
    funder_id: Seq<char>,
) -> Seq<char> {
    let p0 = insert_before_last(payload, keypom_args_member(payload == empty_object(), ka_json));
    let p1 = opt_member(p0, ka.account_id_field, new_account_id);
    let p2 = opt_member(p1, ka.drop_id_field, drop_id);
    let p3 = opt_member(p2, ka.key_id_field, key_id);
    opt_member(p3, ka.funder_id_field, funder_id)
}

/// The text with a member appended before its last character, when there is a field.
pub open spec fn opt_member(p: Seq<char>, field: Option<String>, value: Seq<char>) -> Seq<char> {
    match field {
        Some(f) => insert_before_last(p, json_member(false, f@, value)),
        None => p,
    }
}

/// Append a member before the last character when there is a field.
fn append_opt_member(payload: &mut String, field: &Option<String>, value: &String)
    requires
        old(payload)@.len() >= 1,
    ensures
        final(payload)@ == opt_member(old(payload)@, *field, value@),
        final(payload)@.len() >= 1,
{
    if let Some(f) = field {
        let m = make_member(false, f, value);
        insert_before_last_char(payload, &m);
    }
}

/// Add the Keypom arguments to the payload of an account creation.
pub fn insert_keypom_args_to_ca_payload(
    payload: String,
    keypom_args: &KeypomInjectedArgs,
    keypom_args_json: &String,
    new_account_id: &String,
    drop_id: &String,
    key_id: &String,
    funder_id: &String,
) -> (r: String)
    requires
        payload@.len() >= 1,
    ensures
        r@ == ca_payload(
            payload@,
            *keypom_args,
            keypom_args_json@,
            new_account_id@,
            drop_id@,
            key_id@,
            funder_id@,
        ),
{
    let mut p = payload;
    let piece = make_keypom_args_member(is_empty_object(&p), keypom_args_json);
    insert_before_last_char(&mut p, &piece);
    append_opt_member(&mut p, &keypom_args.account_id_field, new_account_id);
    append_opt_member(&mut p, &keypom_args.drop_id_field, drop_id);
    append_opt_member(&mut p, &keypom_args.key_id_field, key_id);
    append_opt_member(&mut p, &keypom_args.funder_id_field, funder_id);
    p
}

/// The names along a field's path: its dot-separated parts (`metadata.field` names the member
/// `field` of the object under `metadata`).
pub open spec fn field_path(f: Seq<char>) -> Seq<Seq<char>>
    decreases f.len(),
{
    let i = first_index_of(f, '.');
    if 0 <= i < f.len() {
        seq![f.take(i)] + field_path(f.skip(i + 1))
    } else {
        seq![f]
    }
}

/// Split a field name at its dots.
pub fn split_field(f: &str) -> (r: Vec<String>)
    ensures
        str_seq(r@) == field_path(f@),
    decreases f@.len(),
{
    let n = f.unicode_len();
    let i = find_char(f, '.', 0);
    proof {
        lemma_first_index_of(f@, '.');
        assert(f@.subrange(0, n as int) =~= f@);
    }
    if i == n {
        let mut r: Vec<String> = Vec::new();
        r.push(String::from_str(f));
        proof {
            assert(str_seq(r@) =~= seq![f@]);
        }
        r
    } else {
        let head = String::from_str(f.substring_char(0, i));
        let tail = f.substring_char(i + 1, n);
        proof {
            assert(tail@ =~= f@.skip(i + 1));
            assert(head@ =~= f@.take(i as int));
        }
        let rest = split_field(tail);
        let mut r: Vec<String> = Vec::new();
        r.push(head);
        let mut k: usize = 0;
        while k < rest.len()
            invariant
                k <= rest@.len(),
                str_seq(r@) =~= seq![f@.take(i as int)] + str_seq(rest@).take(k as int),
            decreases rest@.len() - k,
        {
            let ghost r0 = r@;
            r.push(String::from_str(rest[k].as_str()));
            proof {
                assert(str_seq(r@) =~= str_seq(r0).push(rest@[k as int]@));
                assert(str_seq(rest@).take(k + 1) =~= str_seq(rest@).take(k as int).push(rest@[k as int]@));
            }
            k = k + 1;
        }
        proof {
            assert(str_seq(rest@).take(rest@.len() as int) =~= str_seq(rest@));
        }
        r
    }
}

/// A value inserted into a JSON value along a path: the last name becomes a new member of the
/// object the names before it lead to. Refused (`None`) where a name on the way is missing or
/// does not lead to an object, or the last name is a member already.
pub open spec fn insert_path(v: JsonView, path: Seq<Seq<char>>, value: JsonView) -> Option<JsonView>
    decreases path.len(),
{
    if path.len() == 0 {
        None
    } else {
        match v {
            JsonView::Object(m) => match find_key(m, path[0]) {
                Some(i) => if path.len() == 1 {
                    None
                } else {
                    match insert_path(m[i].1, path.drop_first(), value) {
                        Some(c) => Some(JsonView::Object(m.update(i, (path[0], c)))),
                        None => None,
                    }
                },
                None => if path.len() == 1 {
                    Some(JsonView::Object(m.push((path[0], value))))
                } else {
                    None
                },
            },
            _ => None,
        }
    }
}

/// The view of an optional JSON value.
pub open spec fn opt_view_json(v: Option<JsonValue>) -> Option<JsonView> {
    match v {
        Some(x) => Some(json_view(x)),
        None => None,
    }
}

/// Insert a text value along the path `path[at..]`.
fn insert_at_path(v: JsonValue, path: &Vec<String>, at: usize, value: &String) -> (r: Option<JsonValue>)
    requires
        at <= path@.len(),
    ensures
        opt_view_json(r) == insert_path(json_view(v), str_seq(path@).skip(at as int), JsonView::Str(value@)),
    decreases path@.len() - at,
{
    let ghost p = str_seq(path@).skip(at as int);
    if at >= path.len() {
        return None;
    }
    proof {
        assert(p[0] == path@[at as int]@);
        assert(p.drop_first() =~= str_seq(path@).skip(at + 1));
    }
    let mut m = match v {
        JsonValue::Object(m) => m,
        _ => {
            return None;
        },
    };
    proof {
        lemma_object_view(m);
    }
    let ghost old_m = m@;
    let key = &path[at];
    match find_member(&m, key) {
        Some(j) => {
            if at + 1 == path.len() {
                return None;
            }
            proof {
                lemma_find_key_range(members_view(m@), key@);
            }
            let (k, child) = m.remove(j);
            match insert_at_path(child, path, at + 1, value) {
                Some(c) => {
                    let ghost cv = json_view(c);
                    m.insert(j, (k, c));
                    proof {
                        assert(m@ =~= old_m.update(j as int, (old_m[j as int].0, c)));
                        assert(members_view(m@) =~= members_view(old_m).update(j as int, (p[0], cv)));
                        lemma_object_view(m);
                    }
                    Some(JsonValue::Object(m))
                },
                None => None,
            }
        },
        None => {
            if at + 1 < path.len() {
                return None;
            }
            m.push((key.clone(), JsonValue::Str(value.clone())));
            proof {
                assert(members_view(m@) =~= members_view(old_m).push((p[0], JsonView::Str(value@))));
                lemma_object_view(m);
            }
            Some(JsonValue::Object(m))
        },
    }
}

/// The path a field names: its dot-separated parts where dots lead into nested objects, else
/// the field itself.
pub open spec fn field_names(f: Seq<char>, nested: bool) -> Seq<Seq<char>> {
    if nested {
        field_path(f)
    } else {
        seq![f]
    }
}

/// What writing one Keypom argument does: nothing without a field; else the value goes in as a
/// text member along the field's path (refused as `insert_path` says).
pub open spec fn keypom_arg_result(args: JsonView, field: Option<String>, nested: bool, value: Seq<char>) -> Option<
    JsonView,
> {
    match field {
        None => Some(args),
        Some(f) => insert_path(args, field_names(f@, nested), JsonView::Str(value)),
    }
}

/// Whether a character is ASCII (one byte in UTF-8).
pub open spec fn is_ascii_char(c: char) -> bool {
    (c as u32) < 128
}

/// Whether text can take an insertion before its last character (it ends with a one-byte one).
pub open spec fn insertable(s: Seq<char>) -> bool {
    s.len() >= 1 && is_ascii_char(s.last())
}

/// What writing one Keypom argument does to the arguments' text: nothing without a field;
/// refused (`None`) when the field's text occurs anywhere in the arguments' text; else the member
/// `"field":"value"` goes before the closing character.
pub open spec fn text_arg_result(args: Seq<char>, field: Option<Seq<char>>, value: Seq<char>) -> Option<Seq<char>> {
    match field {
        None => Some(args),
        Some(f) => if contains_text(args, f) {
            None
        } else {
            Some(insert_before_last(args, json_member(args == empty_object(), f, value)))
        },
    }
}

/// Inserting before the last character keeps it last.
pub proof fn lemma_insert_keeps_last(s: Seq<char>, piece: Seq<char>)
    requires
        s.len() >= 1,
    ensures
        insert_before_last(s, piece).len() >= 1,
        insert_before_last(s, piece).last() == s.last(),
{
}

/// Writing a member into the text keeps it open to more insertions.
pub proof fn lemma_keep_insertable(args: Seq<char>, field: Option<Seq<char>>, value: Seq<char>)
    requires
        insertable(args),
    ensures
        text_arg_result(args, field, value) matches Some(a) ==> insertable(a),
{
    if field is Some && !contains_text(args, field.unwrap()) {
        lemma_insert_keeps_last(args, json_member(args == empty_object(), field.unwrap(), value));
    }
}

/// Write the member `"field":"value"` into the arguments' text, refused when the field's text
/// occurs in it.
fn write_text_arg(args_text: &mut String, optional_field: &Option<String>, value: &String) -> (r: Result<(), String>)
    requires
        insertable(old(args_text)@),
    ensures
        match text_arg_result(old(args_text)@, opt_view(*optional_field), value@) {
            Some(a) => r is Ok && final(args_text)@ == a,
            None => r is Err && final(args_text)@ == old(args_text)@,
        },
{
    if let Some(field) = optional_field {
        if text_contains(args_text.as_str(), field.as_str()) {
            return Err(String::from_str("Keypom field present in args already. Skipping method."));
        }
        let first = is_empty_object(args_text);
        let member = make_member(first, field, value);
        insert_before_last_char(args_text, &member);
    }
    Ok(())
}

/// One step of writing Keypom arguments into the arguments (their JSON value and their text):
/// refused where the text refuses the field (its text occurs there already) or the value cannot
/// take it; else both take the member.
pub open spec fn arg_step(
    s: Option<(JsonView, Seq<char>)>,
    field: Option<String>,
    nested: bool,
    value: Seq<char>,
) -> Option<(JsonView, Seq<char>)> {
    match s {
        None => None,
        Some((v, t)) => match text_arg_result(t, opt_view(field), value) {
            None => None,
            Some(t2) => match keypom_arg_result(v, field, nested, value) {
                None => None,
                Some(v2) => Some((v2, t2)),
            },
        },
    }
}

/// Write one Keypom argument into JSON arguments: refused where the field's text occurs in the
/// arguments' text (`args_text`, which then takes the member as text, so that later fields are
/// checked against it); else the value goes in as a text member under the field, whose dots lead
/// into nested objects where `nested` is set.
pub fn insert_keypom_arg(
    output_args: JsonValue,
    args_text: &mut String,
    optional_field: &Option<String>,
    nested: bool,
    value: &String,
) -> (r: Result<JsonValue, String>)
    requires
        insertable(old(args_text)@),
    ensures
        match arg_step(Some((json_view(output_args), old(args_text)@)), *optional_field, nested, value@) {
            Some((a, t)) => r matches Ok(v) && json_view(v) == a && final(args_text)@ == t,
            None => r is Err,
        },
        r is Ok ==> insertable(final(args_text)@),
{
    proof {
        lemma_keep_insertable(args_text@, opt_view(*optional_field), value@);
    }
    write_text_arg(args_text, optional_field, value)?;
    match optional_field {
        None => Ok(output_args),
        Some(f) => {
            let path = if nested {
                split_field(f.as_str())
            } else {
                let mut p: Vec<String> = Vec::new();
                p.push(f.clone());
                proof {
                    assert(str_seq(p@) =~= seq![f@]);
                }
                p
            };
            proof {
                assert(str_seq(path@).skip(0) =~= str_seq(path@));
            }
            match insert_at_path(output_args, &path, 0, value) {
                Some(v) => Ok(v),
                None => Err(String::from_str("Keypom field cannot be written into the args. Skipping method.")),
            }
        },
    }
}

/// The JSON view of an optional text: the text, or `null`.
pub open spec fn opt_text_view(o: Option<String>) -> JsonView {
    match o {
        Some(s) => JsonView::Str(s@),
        None => JsonView::Null,
    }
}

/// The Keypom arguments as the JSON object sent along: each field name, or `null`.
pub open spec fn keypom_args_view(ka: KeypomInjectedArgs) -> JsonView {
    JsonView::Object(
        seq![
            ("account_id_field"@, opt_text_view(ka.account_id_field)),
            ("drop_id_field"@, opt_text_view(ka.drop_id_field)),
            ("key_id_field"@, opt_text_view(ka.key_id_field)),
            ("funder_id_field"@, opt_text_view(ka.funder_id_field)),
        ],
    )
}

fn opt_text(o: &Option<String>) -> (r: JsonValue)
    ensures
        json_view(r) == opt_text_view(*o),
{
    match o {
        Some(s) => JsonValue::Str(s.clone()),
        None => JsonValue::Null,
    }
}

/// The Keypom arguments as a JSON object.
pub fn keypom_args_value(ka: &KeypomInjectedArgs) -> (r: JsonValue)
    ensures
        json_view(r) == keypom_args_view(*ka),
{
    let mut m: Vec<(String, JsonValue)> = Vec::new();
    m.push((String::from_str("account_id_field"), opt_text(&ka.account_id_field)));
    m.push((String::from_str("drop_id_field"), opt_text(&ka.drop_id_field)));
    m.push((String::from_str("key_id_field"), opt_text(&ka.key_id_field)));
    m.push((String::from_str("funder_id_field"), opt_text(&ka.funder_id_field)));
    proof {
        lemma_object_view(m);
        assert(members_view(m@) =~= keypom_args_view(*ka)->Object_0);
    }
    JsonValue::Object(m)
}

/// What writing all Keypom arguments does: each field given gets its value (the drop's, the
/// key's and the funder's fields may lead into nested objects with dots; the account's field is
/// one name), each refused where its text already occurs in the arguments' text as the earlier
/// fields left it; then the Keypom arguments themselves become the member `keypom_args`, refused
/// where `"keypom_args"` occurs in that text or the arguments are no object or have that member.
pub open spec fn keypom_args_result(
    args: JsonView,
    args_text: Seq<char>,
    ka: KeypomInjectedArgs,
    account_id: Seq<char>,
    drop_id: Seq<char>,
    key_id: Seq<char>,
    funder_id: Seq<char>,
) -> Option<JsonView> {
    let s1 = arg_step(Some((args, args_text)), ka.account_id_field, false, account_id);
    let s2 = arg_step(s1, ka.drop_id_field, true, drop_id);
    let s3 = arg_step(s2, ka.key_id_field, true, key_id);
    let s4 = arg_step(s3, ka.funder_id_field, true, funder_id);
    match s4 {
        None => None,
        Some((v, t)) => if contains_text(t, keypom_args_key()) {
            None
        } else {
            match v {
                JsonView::Object(m) => if find_key(m, "keypom_args"@) is Some {
                    None
                } else {
                    Some(JsonView::Object(m.push(("keypom_args"@, keypom_args_view(ka)))))
                },
                _ => None,
            }
        },
    }
}

/// Write the Keypom arguments into JSON arguments, whose text is `args_text`: the claiming
/// account, the drop, the key and the funder under the fields asked for (dots in the drop's, the
/// key's and the funder's fields lead into nested objects), then the arguments themselves under
/// `keypom_args`. Refused as `keypom_args_result` says.
pub fn add_keypom_args(
    output_args: JsonValue,
    args_text: &String,
    keypom_args: Option<KeypomInjectedArgs>,
    account_id: &AccountId,
    drop_id: &DropId,
    key_id: &String,
    funder_id: &AccountId,
) -> (r: Result<JsonValue, String>)
    requires
        insertable(args_text@),
    ensures
        match keypom_args_result(
            json_view(output_args),
            args_text@,
            effective_keypom_args(keypom_args),
            account_id@,
            drop_id@,
            key_id@,
            funder_id@,
        ) {
            Some(a) => r matches Ok(v) && json_view(v) == a,
            None => r is Err,
        },
{
    let ka = match keypom_args {
        Some(a) => a,
        None => KeypomInjectedArgs {
            account_id_field: None,
            drop_id_field: None,
            key_id_field: None,
            funder_id_field: None,
        },
    };
    proof {
        assert(ka == effective_keypom_args(keypom_args));
    }
    let mut text = String::from_str(args_text.as_str());
    let a1 = insert_keypom_arg(output_args, &mut text, &ka.account_id_field, false, account_id)?;
    let a2 = insert_keypom_arg(a1, &mut text, &ka.drop_id_field, true, drop_id)?;
    let a3 = insert_keypom_arg(a2, &mut text, &ka.key_id_field, true, key_id)?;
    let a4 = insert_keypom_arg(a3, &mut text, &ka.funder_id_field, true, funder_id)?;
    proof {
        reveal_strlit("\"keypom_args\"");
        assert("\"keypom_args\""@ =~= keypom_args_key());
    }
    if text_contains(text.as_str(), "\"keypom_args\"") {
        return Err(String::from_str("Keypom Args detected in client args. Returning and decrementing keys"));
    }
    let mut m = match a4 {
        JsonValue::Object(m) => m,
        _ => {
            return Err(String::from_str("Args are not a JSON object. Skipping method."));
        },
    };
    proof {
        lemma_object_view(m);
    }
    let key = String::from_str("keypom_args");
    proof {
        reveal_strlit("keypom_args");
    }
    if find_member(&m, &key).is_some() {
        return Err(String::from_str("Keypom Args detected in client args. Returning and decrementing keys"));
    }
    let ghost old_m = m@;
    let kav = keypom_args_value(&ka);
    m.push((key, kav));
    proof {
        assert(members_view(m@) =~= members_view(old_m).push(("keypom_args"@, keypom_args_view(ka))));
        lemma_object_view(m);
    }
    Ok(JsonValue::Object(m))
}

} // verus!
