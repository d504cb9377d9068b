//! The calls this library makes into `near_sdk`, `hex` and `serde_json`. Each is a thin wrapper
//! whose contract Verus believes. What the outside function computes is stated where a few lines
//! do (account IDs, hexadecimal, a JSON boolean) and named where it would take pages (hashes,
//! signatures, public keys, JSON values, Unicode upper case).

use vstd::prelude::*;

verus! {

/// Whether a character may stand in an account ID: `a`-`z`, `0`-`9`, or a separator.
pub open spec fn account_id_char(c: char) -> bool {
    ('a' <= c && c <= 'z') || ('0' <= c && c <= '9') || account_id_separator(c)
}

/// The separators of an account ID: `-`, `_` and `.`.
pub open spec fn account_id_separator(c: char) -> bool {
    c == '-' || c == '_' || c == '.'
}

/// Whether `near_sdk` accepts the text as an account ID: 2 to 64 characters, each a lower-case
/// letter, a digit or a separator, with no separator first, last or next to another.
pub open spec fn account_id_valid(s: Seq<char>) -> bool {
    &&& 2 <= s.len() <= 64
    &&& forall|i: int| 0 <= i < s.len() ==> account_id_char(#[trigger] s[i])
    &&& !account_id_separator(s[0])
    &&& !account_id_separator(s.last())
    &&& forall|i: int| 0 <= i < s.len() - 1 ==> !(account_id_separator(#[trigger] s[i]) && account_id_separator(s[i + 1]))
}

/// The bytes of a public key given as text (`curve:base58`) as `near_sdk::PublicKey` holds them,
/// or `None` where it refuses the text.
pub uninterp spec fn public_key_data(s: Seq<char>) -> Option<Seq<u8>>;

/// Whether `near_sdk::env::ed25519_verify` accepts a signature of a message under a key.
pub uninterp spec fn ed25519_valid(signature: Seq<u8>, message: Seq<u8>, public_key: Seq<u8>) -> bool;

/// The value of a hexadecimal digit (either case), or -1 for any other character.
pub open spec fn hex_digit(c: char) -> int {
    if '0' <= c && c <= '9' {
        c as int - 48
    } else if 'a' <= c && c <= 'f' {
        c as int - 87
    } else if 'A' <= c && c <= 'F' {
        c as int - 55
    } else {
        -1
    }
}

/// The bytes that `hex::decode` yields for the text: for text of even length made of hexadecimal
/// digits, one byte per pair of digits (the first the high half); else `None` (an error).
pub open spec fn hex_decoded(s: Seq<char>) -> Option<Seq<u8>> {
    if s.len() % 2 == 0 && forall|i: int| 0 <= i < s.len() ==> hex_digit(#[trigger] s[i]) >= 0 {
        Some(Seq::new((s.len() / 2) as nat, |k: int| (hex_digit(s[2 * k]) * 16 + hex_digit(s[2 * k + 1])) as u8))
    } else {
        None
    }
}

/// The SHA-256 digest that `near_sdk::env::sha256` computes for the bytes.
pub uninterp spec fn sha256_digest(b: Seq<u8>) -> Seq<u8>;

/// Whether `serde_json` parses the text as a JSON value.
pub uninterp spec fn json_parses(s: Seq<char>) -> bool;

/// JSON whitespace: space, line feed, tab, carriage return.
pub open spec fn json_ws(x: u8) -> bool {
    x == 32 || x == 10 || x == 9 || x == 13
}

/// Whether bytes are all JSON whitespace.
pub open spec fn all_json_ws(b: Seq<u8>) -> bool {
    forall|i: int| 0 <= i < b.len() ==> json_ws(#[trigger] b[i])
}

/// Whether the bytes are a literal with only JSON whitespace around it.
pub open spec fn literal_alone(b: Seq<u8>, lit: Seq<u8>) -> bool {
    exists|i: int|
        0 <= i && i + lit.len() <= b.len() && all_json_ws(#[trigger] b.take(i)) && b.subrange(i, i + lit.len())
            == lit && all_json_ws(b.skip(i + lit.len()))
}

/// The boolean that `serde_json::from_slice::<bool>` reads from the bytes: `true` or `false`
/// with only JSON whitespace around it; else `None` (an error).
pub open spec fn json_bool(b: Seq<u8>) -> Option<bool> {
    if literal_alone(b, seq![116u8, 114u8, 117u8, 101u8]) {
        Some(true)
    } else if literal_alone(b, seq![102u8, 97u8, 108u8, 115u8, 101u8]) {
        Some(false)
    } else {
        None
    }
}

/// Calls `serde_json::from_slice::<bool>`. Claimed: the result is `json_bool` of the bytes,
/// `Some` exactly when the crate reads a boolean.
#[verifier::external_body]
pub(crate) fn parse_json_bool(b: &[u8]) -> (r: Option<bool>)
    ensures
        r == json_bool(b@),
{
    serde_json::from_slice::<bool>(b).ok()
}

/// The text that `str::to_uppercase` yields (Unicode upper case).
pub uninterp spec fn uppercase(s: Seq<char>) -> Seq<char>;

/// Calls `str::to_uppercase`. Claimed: the result is `uppercase` of the text; the Unicode
/// case mapping itself is not restated.
#[verifier::external_body]
pub(crate) fn to_uppercase(s: &str) -> (r: String)
    ensures
        r@ == uppercase(s@),
{
    s.to_uppercase()
}

/// Parses the text with `near_sdk::AccountId`'s `FromStr`. Claimed: the result is whether the
/// parse succeeded, which is `account_id_valid` (the crate counts the length in bytes, which is
/// the length in characters wherever every character is allowed).
#[verifier::external_body]
pub(crate) fn is_valid_account_id(s: &str) -> (b: bool)
    ensures
        b == account_id_valid(s@),
{
    s.parse::<near_sdk::AccountId>().is_ok()
}

/// Parses the text with `near_sdk::PublicKey`'s `FromStr` and takes `as_bytes` of the key.
/// Claimed: `None` exactly when the parse fails, else the bytes (named `public_key_data`); the
/// source shows they start with the curve byte, which is not restated.
#[verifier::external_body]
pub(crate) fn public_key_bytes(s: &str) -> (r: Option<Vec<u8>>)
    ensures
        match r {
            Some(v) => public_key_data(s@) == Some(v@),
            None => public_key_data(s@) is None,
        },
{
    match s.parse::<near_sdk::PublicKey>() {
        Ok(pk) => Some(pk.as_bytes().to_vec()),
        Err(_) => None,
    }
}

/// Calls `near_sdk::env::ed25519_verify`. Claimed: the result is `ed25519_valid` of the signature,
/// the message and the key; the verification itself is not restated.
#[verifier::external_body]
pub(crate) fn ed25519_verify(signature: &[u8; 64], message: &[u8], public_key: &[u8; 32]) -> (b: bool)
    ensures
        b == ed25519_valid(signature@, message@, public_key@),
{
    near_sdk::env::ed25519_verify(signature, message, public_key)
}

/// Calls `hex::decode`. Claimed: the result is `hex_decoded` of the text (the crate works on the
/// text's bytes, which are its characters wherever every character is a hexadecimal digit).
#[verifier::external_body]
pub(crate) fn hex_decode(s: &str) -> (r: Option<Vec<u8>>)
    ensures
        match r {
            Some(v) => hex_decoded(s@) == Some(v@),
            None => hex_decoded(s@) is None,
        },
{
    hex::decode(s).ok()
}

/// Calls `near_sdk::env::sha256`. Claimed: the digest is `sha256_digest` of the input and has the
/// 32 bytes that the function's documentation gives; the hash itself is not restated.
#[verifier::external_body]
pub(crate) fn sha256(b: &[u8]) -> (r: Vec<u8>)
    ensures
        r@ == sha256_digest(b@),
        r@.len() == 32,
{
    near_sdk::env::sha256(b)
}

/// Calls `serde_json::from_str` into a generic JSON value. Claimed: the result is whether the
/// parse succeeded, named `json_parses`.
#[verifier::external_body]
pub(crate) fn is_valid_json(s: &str) -> (b: bool)
    ensures
        b == json_parses(s@),
{
    serde_json::from_str::<serde_json::Value>(s).is_ok()
}

} // verus!
