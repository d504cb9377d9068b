//! Token IDs of keys (`drop_id:key_nonce`), and decimal text for unsigned integers.

use vstd::prelude::*;

verus! {

/// The digit character for a value below ten.
pub open spec fn digit_char(d: int) -> char {
    if d == 0 {
        '0'
    } else if d == 1 {
        '1'
    } else if d == 2 {
        '2'
    } else if d == 3 {
        '3'
    } else if d == 4 {
        '4'
    } else if d == 5 {
        '5'
    } else if d == 6 {
        '6'
    } else if d == 7 {
        '7'
    } else if d == 8 {
        '8'
    } else {
        '9'
    }
}

/// Whether a character is an ASCII decimal digit.
pub open spec fn is_digit(c: char) -> bool {
    '0' <= c <= '9'
}

/// The value of a digit character.
pub open spec fn digit_value(c: char) -> int {
    c as int - '0' as int
}

/// Decimal text of a natural number, without leading zeros.
pub open spec fn decimal(n: nat) -> Seq<char>
    decreases n,
{
    if n < 10 {
        seq![digit_char(n as int)]
    } else {
        decimal(n / 10).push(digit_char((n % 10) as int))
    }
}

/// The value of a sequence of digits read in base ten.
pub open spec fn digits_value(s: Seq<char>) -> int
    decreases s.len(),
{
    if s.len() == 0 {
        0
    } else {
        digits_value(s.drop_last()) * 10 + digit_value(s.last())
    }
}

/// Whether every character of the text is a decimal digit.
pub open spec fn all_digits(s: Seq<char>) -> bool {
    forall|i: int| 0 <= i < s.len() ==> is_digit(#[trigger] s[i])
}

/// What `str::parse::<u64>` yields: an optional `+` followed by one or more digits whose value fits.
pub open spec fn parse_u64_spec(s: Seq<char>) -> Option<u64> {
    let t = if s.len() > 0 && s[0] == '+' {
        s.drop_first()
    } else {
        s
    };
    if t.len() > 0 && all_digits(t) && digits_value(t) <= u64::MAX {
        Some(digits_value(t) as u64)
    } else {
        None
    }
}

/// Position of the first occurrence of a character, or the length when it does not occur.
pub open spec fn first_index_of(s: Seq<char>, c: char) -> int
    decreases s.len(),
{
    if s.len() == 0 {
        0
    } else if s[0] == c {
        0
    } else {
        1 + first_index_of(s.drop_first(), c)
    }
}

/// The token ID of a key: the drop ID, a colon, and the key nonce in decimal.
pub open spec fn token_id_spec(drop_id: Seq<char>, key_id: u64) -> Seq<char> {
    drop_id + seq![':'] + decimal(key_id as nat)
}

/// What `parse_token_id` yields: the text before the first colon, and the text up to the next
/// colon read as a `u64`.
pub open spec fn parse_token_id_spec(t: Seq<char>) -> Option<(Seq<char>, u64)> {
    let i = first_index_of(t, ':');
    let rest = t.subrange(i + 1, t.len() as int);
    let j = first_index_of(rest, ':');
    match parse_u64_spec(rest.subrange(0, j)) {
        Some(n) => Some((t.subrange(0, i), n)),
        None => None,
    }
}

pub proof fn lemma_first_index_of(s: Seq<char>, c: char)
    ensures
        0 <= first_index_of(s, c) <= s.len(),
        first_index_of(s, c) < s.len() ==> s[first_index_of(s, c)] == c,
        forall|k: int| 0 <= k < first_index_of(s, c) ==> s[k] != c,
    decreases s.len(),
{
    if s.len() > 0 && s[0] != c {
        lemma_first_index_of(s.drop_first(), c);
        assert forall|k: int| 0 <= k < first_index_of(s, c) implies s[k] != c by {
            if k > 0 {
                assert(s[k] == s.drop_first()[k - 1]);
            }
        }
    }
}

/// The first index of a character that occurs at a position before which it does not occur.
pub proof fn lemma_first_index_at(s: Seq<char>, c: char, i: int)
    requires
        0 <= i < s.len(),
        s[i] == c,
        forall|k: int| 0 <= k < i ==> s[k] != c,
    ensures
        first_index_of(s, c) == i,
    decreases s.len(),
{
    if i > 0 {
        assert forall|k: int| 0 <= k < i - 1 implies s.drop_first()[k] != c by {
            assert(s.drop_first()[k] == s[k + 1]);
        }
        lemma_first_index_at(s.drop_first(), c, i - 1);
    }
}

/// A character that does not occur gives the length.
pub proof fn lemma_first_index_absent(s: Seq<char>, c: char)
    requires
        forall|k: int| 0 <= k < s.len() ==> s[k] != c,
    ensures
        first_index_of(s, c) == s.len(),
    decreases s.len(),
{
    if s.len() > 0 {
        assert forall|k: int| 0 <= k < s.len() - 1 implies s.drop_first()[k] != c by {
            assert(s.drop_first()[k] == s[k + 1]);
        }
        lemma_first_index_absent(s.drop_first(), c);
    }
}

pub proof fn lemma_digit_char(d: int)
    requires
        0 <= d < 10,
    ensures
        is_digit(digit_char(d)),
        digit_value(digit_char(d)) == d,
{
}

/// Decimal text is made of digits, starts with a digit and reads back as the number.
pub proof fn lemma_decimal(n: nat)
    ensures
        decimal(n).len() > 0,
        all_digits(decimal(n)),
        digits_value(decimal(n)) == n,
    decreases n,
{
    if n < 10 {
        lemma_digit_char(n as int);
        assert(decimal(n).drop_last() =~= Seq::<char>::empty());
        assert(digits_value(Seq::<char>::empty()) == 0);
        assert(decimal(n).last() == digit_char(n as int));
        assert(digits_value(decimal(n)) == digits_value(decimal(n).drop_last()) * 10 + digit_value(
            decimal(n).last(),
        ));
    } else {
        lemma_decimal(n / 10);
        lemma_digit_char((n % 10) as int);
        let s = decimal(n);
        assert(s.drop_last() =~= decimal(n / 10));
        assert(all_digits(s)) by {
            assert forall|i: int| 0 <= i < s.len() implies is_digit(#[trigger] s[i]) by {
                if i < s.len() - 1 {
                    assert(s[i] == decimal(n / 10)[i]);
                }
            }
        }
        assert(s.last() == digit_char((n % 10) as int));
        assert(digits_value(s) == digits_value(s.drop_last()) * 10 + digit_value(s.last()));
        assert((n / 10) * 10 + n % 10 == n) by (nonlinear_arith);
    }
}

/// Token IDs of drops without colons read back as the drop ID and the key nonce.
pub proof fn lemma_token_id_roundtrip(drop_id: Seq<char>, key_id: u64)
    requires
        !drop_id.contains(':'),
    ensures
        parse_token_id_spec(token_id_spec(drop_id, key_id)) == Some((drop_id, key_id)),
{
    let t = token_id_spec(drop_id, key_id);
    let d = decimal(key_id as nat);
    lemma_decimal(key_id as nat);
    let n = drop_id.len() as int;
    assert(t[n] == ':');
    assert forall|k: int| 0 <= k < n implies t[k] != ':' by {
        assert(t[k] == drop_id[k]);
        if drop_id[k] == ':' {
            assert(drop_id.contains(':'));
        }
    }
    lemma_first_index_at(t, ':', n);
    let rest = t.subrange(n + 1, t.len() as int);
    assert(rest =~= d);
    assert forall|k: int| 0 <= k < d.len() implies d[k] != ':' by {
        assert(is_digit(d[k]));
    }
    lemma_first_index_absent(d, ':');
    assert(d.subrange(0, d.len() as int) =~= d);
    assert(is_digit(d[0]));
    assert(t.subrange(0, n) =~= drop_id);
}

/// The one-character text of a digit.
fn digit_str(d: u64) -> (s: &'static str)
    requires
        d < 10,
    ensures
        s@ == seq![digit_char(d as int)],
{
    let table = "0123456789";
    proof {
        reveal_strlit("0123456789");
    }
    let r = table.substring_char(d as usize, (d + 1) as usize);
    proof {
        assert(r@ =~= seq![digit_char(d as int)]);
    }
    r
}

/// Decimal text of a `u64`.
pub fn u64_to_decimal(n: u64) -> (s: String)
    ensures
        s@ == decimal(n as nat),
    decreases n,
{
    if n < 10 {
        String::from_str(digit_str(n))
    } else {
        let mut s = u64_to_decimal(n / 10);
        s.append(digit_str(n % 10));
        s
    }
}

/// The token ID of the key with the given nonce in the given drop.
pub fn make_token_id(drop_id: &String, key_id: u64) -> (t: String)
    ensures
        t@ == token_id_spec(drop_id@, key_id),
{
    let mut t = drop_id.clone();
    t.append(":");
    proof {
        reveal_strlit(":");
    }
    let d = u64_to_decimal(key_id);
    t.append(d.as_str());
    proof {
        assert(t@ =~= token_id_spec(drop_id@, key_id));
    }
    t
}

/// Position of the first occurrence of a character at or after `from`, or the length.
pub(crate) fn find_char(s: &str, c: char, from: usize) -> (i: usize)
    requires
        from <= s@.len(),
    ensures
        from <= i <= s@.len(),
        i == from + first_index_of(s@.subrange(from as int, s@.len() as int), c),
{
    let n = s.unicode_len();
    let mut i = from;
    while i < n
        invariant
            n == s@.len(),
            from <= i <= n,
            forall|k: int| from <= k < i ==> s@[k] != c,
        decreases n - i,
    {
        if s.get_char(i) == c {
            proof {
                let t = s@.subrange(from as int, s@.len() as int);
                assert forall|k: int| 0 <= k < i - from implies t[k] != c by {
                    assert(t[k] == s@[k + from]);
                }
                lemma_first_index_at(t, c, i - from);
            }
            return i;
        }
        i = i + 1;
    }
    proof {
        let t = s@.subrange(from as int, s@.len() as int);
        assert forall|k: int| 0 <= k < t.len() implies t[k] != c by {
            assert(t[k] == s@[k + from]);
        }
        lemma_first_index_absent(t, c);
    }
    n
}

/// Read text as `str::parse::<u64>` does.
pub fn parse_u64(s: &str) -> (r: Option<u64>)
    ensures
        r == parse_u64_spec(s@),
{
    let n = s.unicode_len();
    let mut start: usize = 0;
    if n > 0 && s.get_char(0) == '+' {
        start = 1;
    }
    let ghost t = if s@.len() > 0 && s@[0] == '+' {
        s@.drop_first()
    } else {
        s@
    };
    proof {
        assert(t =~= s@.subrange(start as int, n as int));
    }
    if start == n {
        return None;
    }
    let mut value: u64 = 0;
    let mut i = start;
    while i < n
        invariant
            n == s@.len(),
            start <= i <= n,
            t =~= s@.subrange(start as int, n as int),
            t == (if s@.len() > 0 && s@[0] == '+' {
                s@.drop_first()
            } else {
                s@
            }),
            all_digits(s@.subrange(start as int, i as int)),
            value == digits_value(s@.subrange(start as int, i as int)),
        decreases n - i,
    {
        let c = s.get_char(i);
        let ghost pre = s@.subrange(start as int, i as int);
        let ghost post = s@.subrange(start as int, i + 1);
        proof {
            assert(post.drop_last() =~= pre);
            assert(post.last() == c);
        }
        if !('0' <= c && c <= '9') {
            proof {
                assert(t[i - start] == s@[i as int]);
                assert(!is_digit(t[i - start]));
                assert(!all_digits(t));
                assert(parse_u64_spec(s@) is None);
            }
            return None;
        }
        let d = (c as u32 - '0' as u32) as u64;
        proof {
            assert(digits_value(post) == value * 10 + d);
        }
        match value.checked_mul(10) {
            Some(v10) => {
                match v10.checked_add(d) {
                    Some(v) => {
                        value = v;
                    },
                    None => {
                        proof {
                            lemma_digits_value_prefix(t, i - start + 1);
                            assert(t.subrange(0, i - start + 1) =~= post);
                            assert(parse_u64_spec(s@) is None);
                        }
                        return None;
                    },
                }
            },
            None => {
                proof {
                    lemma_digits_value_prefix(t, i - start + 1);
                    assert(t.subrange(0, i - start + 1) =~= post);
                }
                return None;
            },
        }
        proof {
            assert forall|k: int| 0 <= k < post.len() implies is_digit(#[trigger] post[k]) by {
                if k < pre.len() {
                    assert(post[k] == pre[k]);
                }
            }
        }
        i = i + 1;
    }
    Some(value)
}

/// A prefix of digit text never reads as more than the whole text.
pub proof fn lemma_digits_value_prefix(t: Seq<char>, k: int)
    requires
        0 <= k <= t.len(),
    ensures
        all_digits(t) ==> digits_value(t.subrange(0, k)) <= digits_value(t),
    decreases t.len() - k,
{
    if k < t.len() && all_digits(t) {
        lemma_digits_value_prefix(t, k + 1);
        let a = t.subrange(0, k);
        let b = t.subrange(0, k + 1);
        assert(b.drop_last() =~= a);
        lemma_digits_value_nonneg(a);
        assert(is_digit(t[k]));
        assert(b.last() == t[k]);
        assert(digits_value(b) == digits_value(a) * 10 + digit_value(t[k]));
    }
    if k == t.len() {
        assert(t.subrange(0, k) =~= t);
    }
}

/// Digit text reads as a natural number.
pub proof fn lemma_digits_value_nonneg(s: Seq<char>)
    requires
        all_digits(s),
    ensures
        digits_value(s) >= 0,
    decreases s.len(),
{
    if s.len() > 0 {
        assert(all_digits(s.drop_last())) by {
            assert forall|i: int| 0 <= i < s.len() - 1 implies is_digit(#[trigger] s.drop_last()[i]) by {
                assert(s.drop_last()[i] == s[i]);
            }
        }
        lemma_digits_value_nonneg(s.drop_last());
        assert(is_digit(s[s.len() - 1]));
    }
}

/// Whether the text holds a colon.
pub fn has_colon(s: &String) -> (b: bool)
    ensures
        b == s@.contains(':'),
{
    let t = s.as_str();
    let n = t.unicode_len();
    let i = find_char(t, ':', 0);
    proof {
        assert(t@.subrange(0, t@.len() as int) =~= t@);
        lemma_first_index_of(t@, ':');
        if i < n {
            assert(t@[i as int] == ':');
        } else {
            assert forall|k: int| 0 <= k < t@.len() implies t@[k] != ':' by {}
        }
    }
    i < n
}

/// Split a token ID into its drop ID and key nonce, as `drop_id:key_nonce`.
/// Fails with `"Invalid key nonce"` when the nonce does not read as a `u64`.
pub fn parse_token_id(token_id: &String) -> (r: Result<(String, u64), String>)
    requires
        token_id@.contains(':'),
    ensures
        match r {
            Ok((d, n)) => parse_token_id_spec(token_id@) == Some((d@, n)),
            Err(e) => parse_token_id_spec(token_id@) is None && e@ == "Invalid key nonce"@,
        },
{
    let s = token_id.as_str();
    let len = s.unicode_len();
    proof {
        lemma_first_index_of(s@, ':');
        let w = choose|w: int| 0 <= w < s@.len() && s@[w] == ':';
        if first_index_of(s@, ':') == s@.len() {
            assert(s@[w] != ':');
        }
        assert(s@.subrange(0, s@.len() as int) =~= s@);
    }
    let i = find_char(s, ':', 0);
    let j = find_char(s, ':', i + 1);
    let nonce_text = s.substring_char(i + 1, j);
    let drop_text = s.substring_char(0, i);
    proof {
        let rest = s@.subrange(i + 1, s@.len() as int);
        assert(nonce_text@ =~= rest.subrange(0, j - (i + 1)));
    }
    match parse_u64(nonce_text) {
        Some(n) => Ok((String::from_str(drop_text), n)),
        None => {
            let e = String::from_str("Invalid key nonce");
            proof {
                assert(e@ == "Invalid key nonce"@);
            }
            Err(e)
        },
    }
}

} // verus!
