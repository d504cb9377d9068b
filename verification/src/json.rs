//! JSON values as function call arguments use them, and how the arguments of a funder and of a
//! claiming user are combined.

use vstd::prelude::*;
use crate::assets::UserArgsRule;
use crate::external::{to_uppercase, uppercase};
use crate::helpers::rem_first_and_last_char;

verus! {

/// A JSON value. Object members keep their order; numbers keep their text.
#[derive(Debug, PartialEq, Eq)]
pub enum JsonValue {
    Null,
    Bool(bool),
    Number(String),
    Str(String),
    Array(Vec<JsonValue>),
    Object(Vec<(String, JsonValue)>),
}

/// View of a JSON value.
pub enum JsonView {
    Null,
    Bool(bool),
    Number(Seq<char>),
    Str(Seq<char>),
    Array(Seq<JsonView>),
    Object(Seq<(Seq<char>, JsonView)>),
}

/// The view of a JSON value.
pub open spec fn json_view(v: JsonValue) -> JsonView
    decreases v,
{
    match v {
        JsonValue::Null => JsonView::Null,
        JsonValue::Bool(b) => JsonView::Bool(b),
        JsonValue::Number(n) => JsonView::Number(n@),
        JsonValue::Str(s) => JsonView::Str(s@),
        JsonValue::Array(a) => JsonView::Array(
            Seq::new(
                a@.len(),
                |i: int|
                    if 0 <= i < a@.len() {
                        json_view(a@[i])
                    } else {
                        JsonView::Null
                    },
            ),
        ),
        JsonValue::Object(o) => JsonView::Object(
            Seq::new(
                o@.len(),
                |i: int|
                    if 0 <= i < o@.len() {
                        (o@[i].0@, json_view(o@[i].1))
                    } else {
                        (Seq::empty(), JsonView::Null)
                    },
            ),
        ),
    }
}

/// The views of the members of an object.
pub open spec fn members_view(o: Seq<(String, JsonValue)>) -> Seq<(Seq<char>, JsonView)> {
    Seq::new(o.len(), |i: int| (o[i].0@, json_view(o[i].1)))
}

/// The view of an object is the view of its members.
pub proof fn lemma_object_view(o: Vec<(String, JsonValue)>)
    ensures
        json_view(JsonValue::Object(o)) == JsonView::Object(members_view(o@)),
{
    assert(members_view(o@) =~= json_view(JsonValue::Object(o))->Object_0);
}

/// The position of the first member with a key.
pub open spec fn find_key(m: Seq<(Seq<char>, JsonView)>, k: Seq<char>) -> Option<int>
    decreases m.len(),
{
    if m.len() == 0 {
        None
    } else if m.last().0 == k && find_key(m.drop_last(), k) is None {
        Some(m.len() - 1)
    } else {
        find_key(m.drop_last(), k)
    }
}

/// `b` merged over `a`: two objects are merged member by member, in `b`'s order, a member of
/// `b` merged over the member of `a` with its key or added after them; anything else is
/// replaced by `b`.
pub open spec fn merge_view(a: JsonView, b: JsonView) -> JsonView
    decreases b,
{
    match b {
        JsonView::Object(mb) => match a {
            JsonView::Object(ma) => JsonView::Object(merge_members(ma, mb)),
            _ => b,
        },
        _ => b,
    }
}

/// The members `ma` with the members `mb` merged over them, in order.
pub open spec fn merge_members(ma: Seq<(Seq<char>, JsonView)>, mb: Seq<(Seq<char>, JsonView)>) -> Seq<
    (Seq<char>, JsonView),
>
    decreases mb,
{
    if mb.len() == 0 {
        ma
    } else {
        let (k, v) = mb[0];
        let next = match find_key(ma, k) {
            Some(i) => ma.update(i, (k, merge_view(ma[i].1, v))),
            None => ma.push((k, v)),
        };
        merge_members(next, mb.subrange(1, mb.len() as int))
    }
}

/// Whether no two members share a key.
pub open spec fn keys_distinct(m: Seq<(Seq<char>, JsonView)>) -> bool {
    forall|i: int, j: int| 0 <= i < j < m.len() ==> #[trigger] m[i].0 != #[trigger] m[j].0
}

/// The value of the member with a key, if any.
pub open spec fn member_value(m: Seq<(Seq<char>, JsonView)>, k: Seq<char>) -> Option<JsonView> {
    match find_key(m, k) {
        Some(i) => Some(m[i].1),
        None => None,
    }
}

/// `find_key` finds the first member with the key, and only a key that some member has.
pub(crate) proof fn lemma_find_key_first(m: Seq<(Seq<char>, JsonView)>, k: Seq<char>)
    ensures
        find_key(m, k) matches Some(i) ==> 0 <= i < m.len() && m[i].0 == k && forall|j: int|
            0 <= j < i ==> m[j].0 != k,
        find_key(m, k) is None ==> forall|j: int| 0 <= j < m.len() ==> m[j].0 != k,
    decreases m.len(),
{
    if m.len() > 0 {
        lemma_find_key_first(m.drop_last(), k);
        let p = m.drop_last();
        assert forall|j: int| 0 <= j < p.len() implies p[j] == m[j] by {}
    }
}

/// The first member with a key is where `find_key` finds it.
proof fn lemma_find_key_at(m: Seq<(Seq<char>, JsonView)>, k: Seq<char>, i: int)
    requires
        0 <= i < m.len(),
        m[i].0 == k,
        forall|j: int| 0 <= j < i ==> m[j].0 != k,
    ensures
        find_key(m, k) == Some(i),
{
    lemma_find_key_first(m, k);
    if let Some(x) = find_key(m, k) {
        assert(x == i) by {
            if x < i {
                assert(m[x].0 != k);
            }
            if x > i {
                assert(m[i].0 != k);
            }
        }
    }
}

/// A key no member has is not found.
proof fn lemma_find_key_absent(m: Seq<(Seq<char>, JsonView)>, k: Seq<char>)
    requires
        forall|j: int| 0 <= j < m.len() ==> m[j].0 != k,
    ensures
        find_key(m, k) is None,
{
    lemma_find_key_first(m, k);
}

/// Merging objects with distinct keys keeps every member of both: a key of `mb` takes `mb`'s
/// value, merged over `ma`'s where `ma` has the key too (see `merge_view`: only two objects
/// are merged member by member, anything else is replaced); a key only in `ma` keeps its
/// value. The result again has distinct keys.
pub proof fn lemma_merge_members(ma: Seq<(Seq<char>, JsonView)>, mb: Seq<(Seq<char>, JsonView)>)
    requires
        keys_distinct(ma),
        keys_distinct(mb),
    ensures
        keys_distinct(merge_members(ma, mb)),
        forall|k: Seq<char>| #[trigger]
            member_value(merge_members(ma, mb), k) == merged_member(member_value(ma, k), member_value(mb, k)),
    decreases mb.len(),
{
    if mb.len() > 0 {
        let (k0, v0) = mb[0];
        let rest = mb.subrange(1, mb.len() as int);
        lemma_find_key_first(ma, k0);
        let next = match find_key(ma, k0) {
            Some(i) => ma.update(i, (k0, merge_view(ma[i].1, v0))),
            None => ma.push((k0, v0)),
        };
        assert(keys_distinct(rest)) by {
            assert forall|i: int, j: int| 0 <= i < j < rest.len() implies #[trigger] rest[i].0 != #[trigger] rest[j].0 by {
                assert(rest[i] == mb[i + 1] && rest[j] == mb[j + 1]);
            }
        }
        assert(keys_distinct(next)) by {
            assert forall|i: int, j: int| 0 <= i < j < next.len() implies #[trigger] next[i].0 != #[trigger] next[j].0 by {
                match find_key(ma, k0) {
                    Some(x) => {
                        assert(next[i].0 == ma[i].0 && next[j].0 == ma[j].0);
                    },
                    None => {
                        if j == ma.len() {
                            assert(ma[i].0 != k0);
                        } else {
                            assert(next[i].0 == ma[i].0 && next[j].0 == ma[j].0);
                        }
                    },
                }
            }
        }
        lemma_merge_members(next, rest);
        assert(merge_members(ma, mb) == merge_members(next, rest));
        assert forall|k: Seq<char>| #[trigger]
            member_value(merge_members(ma, mb), k) == merged_member(member_value(ma, k), member_value(mb, k)) by {
            assert(member_value(merge_members(next, rest), k) == merged_member(
                member_value(next, k),
                member_value(rest, k),
            ));
            lemma_find_key_first(ma, k);
            lemma_find_key_first(mb, k);
            lemma_find_key_first(rest, k);
            lemma_find_key_first(next, k);
            if k == k0 {
                lemma_find_key_at(mb, k, 0);
                assert forall|j: int| 0 <= j < rest.len() implies rest[j].0 != k by {
                    assert(rest[j] == mb[j + 1]);
                    assert(mb[0].0 != mb[j + 1].0);
                }
                lemma_find_key_absent(rest, k);
                match find_key(ma, k0) {
                    Some(x) => {
                        assert forall|j: int| 0 <= j < x implies next[j].0 != k by {
                            assert(next[j] == ma[j]);
                        }
                        lemma_find_key_at(next, k, x);
                    },
                    None => {
                        assert forall|j: int| 0 <= j < ma.len() implies next[j].0 != k by {
                            assert(next[j] == ma[j]);
                        }
                        lemma_find_key_at(next, k, ma.len() as int);
                    },
                }
            } else {
                match find_key(mb, k) {
                    Some(y) => {
                        assert(y > 0);
                        assert forall|j: int| 0 <= j < y - 1 implies rest[j].0 != k by {
                            assert(rest[j] == mb[j + 1]);
                        }
                        assert(rest[y - 1] == mb[y]);
                        lemma_find_key_at(rest, k, y - 1);
                    },
                    None => {
                        assert forall|j: int| 0 <= j < rest.len() implies rest[j].0 != k by {
                            assert(rest[j] == mb[j + 1]);
                        }
                        lemma_find_key_absent(rest, k);
                    },
                }
                match find_key(ma, k) {
                    Some(x) => {
                        assert forall|j: int| 0 <= j < x implies next[j].0 != k by {
                            assert(next[j].0 == ma[j].0);
                        }
                        assert(next[x] == ma[x]);
                        lemma_find_key_at(next, k, x);
                    },
                    None => {
                        assert forall|j: int| 0 <= j < next.len() implies next[j].0 != k by {
                            if j < ma.len() {
                                assert(next[j].0 == ma[j].0);
                            }
                        }
                        lemma_find_key_absent(next, k);
                    },
                }
            }
        }
    } else {
        assert forall|k: Seq<char>| #[trigger] member_value(mb, k) is None by {
            lemma_find_key_absent(mb, k);
        }
    }
}

/// A copy of a JSON value.
pub fn copy_json(v: &JsonValue) -> (r: JsonValue)
    ensures
        json_view(r) == json_view(*v),
    decreases v,
{
    match v {
        JsonValue::Null => JsonValue::Null,
        JsonValue::Bool(b) => JsonValue::Bool(*b),
        JsonValue::Number(n) => JsonValue::Number(n.clone()),
        JsonValue::Str(s) => JsonValue::Str(s.clone()),
        JsonValue::Array(a) => {
            let mut out: Vec<JsonValue> = Vec::new();
            let mut i: usize = 0;
            while i < a.len()
                invariant
                    i <= a@.len(),
                    out@.len() == i,
                    forall|j: int| 0 <= j < i ==> json_view(#[trigger] out@[j]) == json_view(a@[j]),
                    *v == JsonValue::Array(*a),
                decreases a@.len() - i,
            {
                proof {
                    assert(decreases_to!(*v => (*v)->Array_0));
                    assert(decreases_to!(*a => a@));
                    assert(decreases_to!(a@ => a@[i as int]));
                    assert(decreases_to!(*v => a@[i as int]));
                }
                let c = copy_json(&a[i]);
                out.push(c);
                i = i + 1;
            }
            proof {
                assert(json_view(JsonValue::Array(out))->Array_0 =~= json_view(*v)->Array_0);
            }
            JsonValue::Array(out)
        },
        JsonValue::Object(o) => {
            let mut out: Vec<(String, JsonValue)> = Vec::new();
            let mut i: usize = 0;
            while i < o.len()
                invariant
                    i <= o@.len(),
                    out@.len() == i,
                    forall|j: int|
                        0 <= j < i ==> (#[trigger] out@[j]).0@ == o@[j].0@ && json_view(out@[j].1)
                            == json_view(o@[j].1),
                    *v == JsonValue::Object(*o),
                decreases o@.len() - i,
            {
                proof {
                    assert(decreases_to!(*v => (*v)->Object_0));
                    assert(decreases_to!(*o => o@));
                    assert(decreases_to!(o@ => o@[i as int]));
                    assert(decreases_to!(o@[i as int] => o@[i as int].1));
                    assert(decreases_to!(*v => o@[i as int].1));
                }
                let c = copy_json(&o[i].1);
                out.push((o[i].0.clone(), c));
                i = i + 1;
            }
            proof {
                assert(json_view(JsonValue::Object(out))->Object_0 =~= json_view(*v)->Object_0);
            }
            JsonValue::Object(out)
        },
    }
}

/// The position of the first member with a key.
pub(crate) fn find_member(o: &Vec<(String, JsonValue)>, k: &String) -> (r: Option<usize>)
    ensures
        r matches Some(j) ==> find_key(members_view(o@), k@) == Some(j as int),
        r is None ==> find_key(members_view(o@), k@) is None,
{
    let ghost m = members_view(o@);
    let mut i: usize = 0;
    while i < o.len()
        invariant
            i <= o@.len(),
            m == members_view(o@),
            find_key(m.take(i as int), k@) is None,
        decreases o@.len() - i,
    {
        proof {
            assert(m.take(i + 1).drop_last() =~= m.take(i as int));
        }
        if o[i].0 == *k {
            proof {
                lemma_find_key_prefix(m, k@, i + 1);
            }
            return Some(i);
        }
        i = i + 1;
    }
    proof {
        assert(m.take(o@.len() as int) =~= m);
    }
    None
}

/// A key that is found is found at a member with that key.
pub(crate) proof fn lemma_find_key_range(m: Seq<(Seq<char>, JsonView)>, k: Seq<char>)
    ensures
        find_key(m, k) matches Some(i) ==> 0 <= i < m.len() && m[i].0 == k,
    decreases m.len(),
{
    if m.len() > 0 {
        lemma_find_key_range(m.drop_last(), k);
    }
}

/// Finding a key in a prefix that holds it finds it in the whole.
proof fn lemma_find_key_prefix(m: Seq<(Seq<char>, JsonView)>, k: Seq<char>, n: int)
    requires
        0 <= n <= m.len(),
        find_key(m.take(n), k) is Some,
    ensures
        find_key(m, k) == find_key(m.take(n), k),
    decreases m.len() - n,
{
    if n < m.len() {
        assert(m.take(n + 1).drop_last() =~= m.take(n));
        lemma_find_key_prefix(m, k, n + 1);
    } else {
        assert(m.take(n) =~= m);
    }
}

/// Merge `b` over `a` in place (see `merge_view`).
pub fn merge_json(a: &mut JsonValue, b: &JsonValue)
    ensures
        json_view(*final(a)) == merge_view(json_view(*old(a)), json_view(*b)),
    decreases b,
{
    let mb = match b {
        JsonValue::Object(mb) => mb,
        _ => {
            *a = copy_json(b);
            return ;
        },
    };
    if !matches!(a, JsonValue::Object(_)) {
        *a = copy_json(b);
        return ;
    }
    let mut tmp = JsonValue::Null;
    std::mem::swap(&mut tmp, a);
    let mut ma = match tmp {
        JsonValue::Object(ma) => ma,
        _ => Vec::new(),
    };
    proof {
        lemma_object_view(*mb);
        lemma_object_view(ma);
    }
    let ghost target = merge_members(members_view(ma@), members_view(mb@));
    proof {
        assert(members_view(mb@).subrange(0, mb@.len() as int) =~= members_view(mb@));
    }
    let mut i: usize = 0;
    while i < mb.len()
        invariant
            i <= mb@.len(),
            b == JsonValue::Object(*mb),
            merge_members(members_view(ma@), members_view(mb@).subrange(i as int, mb@.len() as int))
                == target,
        decreases mb@.len() - i,
    {
        let ghost before = members_view(ma@);
        let ghost rest = members_view(mb@).subrange(i as int, mb@.len() as int);
        proof {
            assert(rest[0] == (mb@[i as int].0@, json_view(mb@[i as int].1)));
            assert(rest.subrange(1, rest.len() as int) =~= members_view(mb@).subrange(i + 1, mb@.len() as int));
        }
        let key = &mb[i].0;
        match find_member(&ma, key) {
            Some(j) => {
                proof {
                    lemma_find_key_range(members_view(ma@), key@);
                    assert(decreases_to!(*b => (*b)->Object_0));
                    assert(decreases_to!(*mb => mb@));
                    assert(decreases_to!(mb@ => mb@[i as int]));
                    assert(decreases_to!(mb@[i as int] => mb@[i as int].1));
                    assert(decreases_to!(*b => mb@[i as int].1));
                }
                let ghost old_ma = ma@;
                let (k, mut val) = ma.remove(j);
                let ghost val0 = val;
                merge_json(&mut val, &mb[i].1);
                let ghost val1 = val;
                ma.insert(j, (k, val));
                proof {
                    assert(ma@ =~= old_ma.update(j as int, (old_ma[j as int].0, val1)));
                    assert(val0 == old_ma[j as int].1);
                    assert(find_key(members_view(old_ma), key@) == Some(j as int));
                    assert(members_view(old_ma)[j as int].0 == old_ma[j as int].0@);
                    assert(members_view(ma@) =~= before.update(
                        j as int,
                        (mb@[i as int].0@, merge_view(before[j as int].1, json_view(mb@[i as int].1))),
                    ));
                }
            },
            None => {
                let c = copy_json(&mb[i].1);
                ma.push((key.clone(), c));
                proof {
                    assert(members_view(ma@) =~= before.push((mb@[i as int].0@, json_view(mb@[i as int].1))));
                }
            },
        }
        i = i + 1;
    }
    proof {
        assert(members_view(mb@).subrange(mb@.len() as int, mb@.len() as int) =~= Seq::empty());
        lemma_object_view(ma);
    }
    *a = JsonValue::Object(ma);
}

/// The arguments a method is called with before markers and Keypom arguments, by the user
/// arguments rule: the funder's arguments alone, or combined with the user's (`None` where the
/// funder's arguments, or user arguments that apply, are not JSON). `user` is `None` where the
/// user gave nothing for the method, `Some(None)` where what they gave is not JSON.
pub open spec fn user_args_result(
    output: Option<JsonView>,
    rule: Option<UserArgsRule>,
    user: Option<Option<JsonView>>,
) -> Option<JsonView> {
    match output {
        None => None,
        Some(out) => match (rule, user) {
            (Some(r), Some(u)) => match u {
                None => None,
                Some(uv) => Some(
                    match r {
                        UserArgsRule::AllUser => uv,
                        UserArgsRule::FunderPreferred => merge_view(uv, out),
                        UserArgsRule::UserPreferred => merge_view(out, uv),
                    },
                ),
            },
            _ => Some(out),
        },
    }
}

/// The member of a key after merging `b`'s members over `a`'s (see `lemma_merge_members`).
pub open spec fn merged_member(a: Option<JsonView>, b: Option<JsonView>) -> Option<JsonView> {
    match (a, b) {
        (_, None) => a,
        (None, Some(v)) => Some(v),
        (Some(x), Some(v)) => Some(merge_view(x, v)),
    }
}

/// The user arguments rules as documented, for a funder's and a user's object arguments with
/// distinct keys: `AllUser` takes the user's arguments; `FunderPreferred` keeps the keys of
/// both, the funder's value winning on a duplicate key; `UserPreferred` keeps the keys of both,
/// the user's value winning on a duplicate key (two objects under one key are merged the same
/// way, one level down).
pub proof fn lemma_user_args_rules(
    funder: Seq<(Seq<char>, JsonView)>,
    user: Seq<(Seq<char>, JsonView)>,
    rule: UserArgsRule,
)
    requires
        keys_distinct(funder),
        keys_distinct(user),
    ensures
        ({
            let r = user_args_result(
                Some(JsonView::Object(funder)),
                Some(rule),
                Some(Some(JsonView::Object(user))),
            );
            &&& rule == UserArgsRule::AllUser ==> r == Some(JsonView::Object(user))
            &&& rule == UserArgsRule::FunderPreferred ==> (r matches Some(JsonView::Object(m)) && forall|
                k: Seq<char>,
            | #[trigger] member_value(m, k) == merged_member(member_value(user, k), member_value(funder, k)))
            &&& rule == UserArgsRule::UserPreferred ==> (r matches Some(JsonView::Object(m)) && forall|
                k: Seq<char>,
            | #[trigger] member_value(m, k) == merged_member(member_value(funder, k), member_value(user, k)))
        }),
{
    lemma_merge_members(user, funder);
    lemma_merge_members(funder, user);
}

/// The views of an optional JSON value.
pub open spec fn opt_json_view(v: Option<JsonValue>) -> Option<JsonView> {
    match v {
        Some(x) => Some(json_view(x)),
        None => None,
    }
}

/// The views of what a user gave for a method.
pub open spec fn user_json_view(v: Option<Option<JsonValue>>) -> Option<Option<JsonView>> {
    match v {
        Some(Some(x)) => Some(Some(json_view(x))),
        Some(None) => Some(None),
        None => None,
    }
}

/// Combine a method's arguments with what the user gave for it (see `user_args_result`);
/// `output_args` is `None` where the method's arguments are not JSON.
pub fn handle_user_args_rules(
    output_args: Option<JsonValue>,
    user_args_rule: &Option<UserArgsRule>,
    user_arg: Option<Option<JsonValue>>,
) -> (r: Result<JsonValue, String>)
    ensures
        match user_args_result(opt_json_view(output_args), *user_args_rule, user_json_view(user_arg)) {
            Some(v) => r matches Ok(x) && json_view(x) == v,
            None => r is Err,
        },
{
    let mut out = match output_args {
        Some(v) => v,
        None => {
            return Err(String::from_str("Cannot cast args to JSON. Returning and decrementing keys"));
        },
    };
    if let (Some(rule), Some(u)) = (user_args_rule, user_arg) {
        let mut user = match u {
            Some(v) => v,
            None => {
                return Err(
                    String::from_str("Cannot cast user provided args to JSON. Returning and decrementing keys"),
                );
            },
        };
        match rule {
            UserArgsRule::AllUser => {
                out = user;
            },
            UserArgsRule::FunderPreferred => {
                merge_json(&mut user, &out);
                out = user;
            },
            UserArgsRule::UserPreferred => {
                merge_json(&mut out, &user);
            },
        }
    }
    Ok(out)
}

/// `s` with every occurrence of `from` replaced by `to`, left to right, occurrences not
/// overlapping.
pub open spec fn replace_all(s: Seq<char>, from: Seq<char>, to: Seq<char>) -> Seq<char>
    decreases s.len(),
{
    if from.len() == 0 || s.len() < from.len() {
        s
    } else if s.subrange(0, from.len() as int) == from {
        to + replace_all(s.subrange(from.len() as int, s.len() as int), from, to)
    } else {
        seq![s[0]] + replace_all(s.subrange(1, s.len() as int), from, to)
    }
}

/// Whether `from` occurs in `s` at position `i`.
fn occurs_at(s: &str, i: usize, from: &str) -> (b: bool)
    requires
        i <= s@.len(),
    ensures
        b == (i + from@.len() <= s@.len() && s@.subrange(i as int, i + from@.len()) == from@),
{
    let n = s.unicode_len();
    let m = from.unicode_len();
    if m > n - i {
        return false;
    }
    let mut k: usize = 0;
    while k < m
        invariant
            i + m <= n,
            n == s@.len(),
            m == from@.len(),
            k <= m,
            forall|j: int| 0 <= j < k ==> s@[i + j] == from@[j],
        decreases m - k,
    {
        if s.get_char(i + k) != from.get_char(k) {
            proof {
                assert(s@.subrange(i as int, i + m)[k as int] != from@[k as int]);
            }
            return false;
        }
        k = k + 1;
    }
    proof {
        assert(s@.subrange(i as int, i + m) =~= from@);
    }
    true
}

/// Replace every occurrence of `from` in `s` by `to` (see `replace_all`).
pub fn replace_text(s: &str, from: &str, to: &str) -> (r: String)
    requires
        from@.len() > 0,
    ensures
        r@ == replace_all(s@, from@, to@),
{
    let n = s.unicode_len();
    let m = from.unicode_len();
    let mut out = String::new();
    let mut i: usize = 0;
    proof {
        assert(s@.subrange(0, n as int) =~= s@);
    }
    while i < n
        invariant
            i <= n,
            n == s@.len(),
            m == from@.len(),
            m > 0,
            out@ + replace_all(s@.subrange(i as int, n as int), from@, to@) == replace_all(s@, from@, to@),
        decreases n - i,
    {
        let ghost rest = s@.subrange(i as int, n as int);
        if occurs_at(s, i, from) {
            proof {
                assert(rest.subrange(0, m as int) =~= s@.subrange(i as int, i + m));
                assert(rest.subrange(m as int, rest.len() as int) =~= s@.subrange(i + m, n as int));
                assert(out@ + to@ + replace_all(s@.subrange(i + m, n as int), from@, to@) =~= out@ + replace_all(rest, from@, to@));
            }
            out.append(to);
            i = i + m;
        } else {
            proof {
                if rest.len() >= m {
                    assert(rest.subrange(0, m as int) =~= s@.subrange(i as int, i + m));
                }
                assert(rest.subrange(1, rest.len() as int) =~= s@.subrange(i + 1, n as int));
                assert(s@.subrange(i as int, i + 1) =~= seq![rest[0]]);
                assert(out@ + seq![rest[0]] + replace_all(s@.subrange(i + 1, n as int), from@, to@) =~= out@ + replace_all(rest, from@, to@));
            }
            out.append(s.substring_char(i, i + 1));
            i = i + 1;
        }
    }
    proof {
        assert(s@.subrange(n as int, n as int) =~= Seq::<char>::empty());
        assert(out@ + Seq::<char>::empty() =~= out@);
    }
    out
}

/// A member of the user's arguments as marker replacement sees it.
pub enum MarkerValue {
    /// A string, as its JSON text (quotes included).
    Text(String),
    /// An object, as its JSON text.
    Object(String),
    /// Anything else; it replaces nothing.
    Other,
}

/// A member of the user's arguments: its key and its value.
pub struct UserMarker {
    pub key: String,
    pub value: MarkerValue,
}

/// The marker a member replaces: `:"KEY"`, the key in upper case.
pub open spec fn marker_of(key: Seq<char>) -> Seq<char> {
    seq![':', '"'] + uppercase(key) + seq!['"']
}

/// What a marker becomes: `:"text"` for a string, `:{...}` for an object.
pub open spec fn replacement_of(v: MarkerValue) -> Option<Seq<char>> {
    match v {
        MarkerValue::Text(t) => Some(seq![':', '"'] + t@.subrange(1, t@.len() - 1) + seq!['"']),
        MarkerValue::Object(t) => Some(seq![':'] + t@),
        MarkerValue::Other => None,
    }
}

/// The arguments with the markers of the members replaced, member after member.
pub open spec fn apply_markers(s: Seq<char>, ms: Seq<UserMarker>) -> Seq<char>
    decreases ms.len(),
{
    if ms.len() == 0 {
        s
    } else {
        let next = match replacement_of(ms[0].value) {
            Some(rep) => replace_all(s, marker_of(ms[0].key@), rep),
            None => s,
        };
        apply_markers(next, ms.subrange(1, ms.len() as int))
    }
}

/// Whether every string member's JSON text has its two quotes.
pub open spec fn markers_well_formed(ms: Seq<UserMarker>) -> bool {
    forall|i: int| 0 <= i < ms.len() ==> ((#[trigger] ms[i]).value matches MarkerValue::Text(t) ==> t@.len() >= 2)
}

/// Replace the markers in a method's arguments with the user's values. `user_arg` is `None`
/// where the user's arguments are not JSON (refused), `Some(None)` where they are not an object
/// (nothing to do), else their members.
pub fn set_user_markers(output_args: &mut String, user_arg: Option<Option<Vec<UserMarker>>>) -> (r: Result<
    (),
    String,
>)
    requires
        user_arg matches Some(Some(ms)) ==> markers_well_formed(ms@),
    ensures
        match user_arg {
            None => r is Err && final(output_args)@ == old(output_args)@,
            Some(None) => r is Ok && final(output_args)@ == old(output_args)@,
            Some(Some(ms)) => r is Ok && final(output_args)@ == apply_markers(old(output_args)@, ms@),
        },
{
    let members = match user_arg {
        None => {
            return Err(String::from_str("Cannot cast args to JSON. Skipping method."));
        },
        Some(None) => {
            return Ok(());
        },
        Some(Some(ms)) => ms,
    };
    let ghost target = apply_markers(output_args@, members@);
    proof {
        assert(members@.subrange(0, members@.len() as int) =~= members@);
    }
    let mut i: usize = 0;
    while i < members.len()
        invariant
            i <= members@.len(),
            markers_well_formed(members@),
            apply_markers(output_args@, members@.subrange(i as int, members@.len() as int)) == target,
        decreases members@.len() - i,
    {
        let ghost rest = members@.subrange(i as int, members@.len() as int);
        proof {
            assert(rest[0] == members@[i as int]);
            assert(rest.subrange(1, rest.len() as int) =~= members@.subrange(i + 1, members@.len() as int));
        }
        let member = &members[i];
        let mut key = String::from_str(":\"");
        key.append(to_uppercase(member.key.as_str()).as_str());
        key.append("\"");
        proof {
            reveal_strlit(":\"");
            reveal_strlit("\"");
            assert(key@ =~= marker_of(member.key@));
        }
        match &member.value {
            MarkerValue::Text(t) => {
                let mut inner = t.clone();
                rem_first_and_last_char(&mut inner);
                let mut rep = String::from_str(":\"");
                rep.append(inner.as_str());
                rep.append("\"");
                proof {
                    reveal_strlit(":\"");
                    reveal_strlit("\"");
                    assert(rep@ =~= replacement_of(member.value).unwrap());
                }
                let replaced = replace_text(output_args.as_str(), key.as_str(), rep.as_str());
                *output_args = replaced;
            },
            MarkerValue::Object(t) => {
                let mut rep = String::from_str(":");
                rep.append(t.as_str());
                proof {
                    reveal_strlit(":");
                    assert(rep@ =~= replacement_of(member.value).unwrap());
                }
                let replaced = replace_text(output_args.as_str(), key.as_str(), rep.as_str());
                *output_args = replaced;
            },
            MarkerValue::Other => {},
        }
        i = i + 1;
    }
    proof {
        assert(members@.subrange(members@.len() as int, members@.len() as int) =~= Seq::<UserMarker>::empty());
    }
    Ok(())
}

} // verus!
