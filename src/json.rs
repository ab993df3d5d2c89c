//! The points where the store relies on serde_json.

use vstd::prelude::*;
use crate::codec::{document_text, expiry_name, field_value, value_name, value_texts};
use crate::entry::Entry;
use crate::table::{has_key, unique_keys};

verus! {

/// `serde_json::Value`, carried through the store as an opaque payload.
#[verifier::external_type_specification]
#[verifier::external_body]
pub struct ExValue(serde_json::Value);

/// `serde_json::Error`, turned into the store's own error where it arises.
#[verifier::external_type_specification]
#[verifier::external_body]
pub struct ExJsonError(serde_json::Error);

/// Relies on the derived `Clone` of `serde_json::Value`: the copy equals the value copied.
pub assume_specification[ <serde_json::Value as Clone>::clone ](v: &serde_json::Value) -> (r: serde_json::Value)
    ensures
        r == *v,
;

/// What `serde_json::Value::as_u64` reads from a value: an unsigned integer number, or nothing.
pub uninterp spec fn json_u64(v: serde_json::Value) -> Option<u64>;

/// Whether a value is the JSON `null`, as `serde_json::Value::is_null` tells.
pub uninterp spec fn json_null(v: serde_json::Value) -> bool;

/// What `serde_json::to_string` writes for a value.
pub uninterp spec fn value_json(v: serde_json::Value) -> Seq<char>;

/// What `serde_json::from_str` reads as a value from a JSON text.
pub uninterp spec fn parsed_value(text: Seq<char>) -> serde_json::Value;

/// Relies on `serde_json::Value::as_u64`, which reads an unsigned integer number.
pub assume_specification[ serde_json::Value::as_u64 ](v: &serde_json::Value) -> (r: Option<u64>)
    ensures
        r == json_u64(*v),
;

/// Relies on `serde_json::Value::is_null`, which tells a JSON `null`.
pub assume_specification[ serde_json::Value::is_null ](v: &serde_json::Value) -> (r: bool)
    ensures
        r == json_null(*v),
;

/// The lowercase hexadecimal digit `d` (0 to 15).
pub open spec fn hex_char(d: int) -> char {
    if d < 10 {
        crate::codec::digit_char(d)
    } else if d == 10 {
        'a'
    } else if d == 11 {
        'b'
    } else if d == 12 {
        'c'
    } else if d == 13 {
        'd'
    } else if d == 14 {
        'e'
    } else {
        'f'
    }
}

/// How a JSON string writes one character: `"` and `\` and the control
/// characters are escaped, everything else stands as it is.
pub open spec fn escaped_char(c: char) -> Seq<char> {
    if c == '"' {
        seq!['\\', '"']
    } else if c == '\\' {
        seq!['\\', '\\']
    } else if c == '\u{8}' {
        seq!['\\', 'b']
    } else if c == '\t' {
        seq!['\\', 't']
    } else if c == '\n' {
        seq!['\\', 'n']
    } else if c == '\u{c}' {
        seq!['\\', 'f']
    } else if c == '\r' {
        seq!['\\', 'r']
    } else if (c as u32) < 0x20 {
        seq!['\\', 'u', '0', '0', hex_char((c as u32) as int / 16), hex_char((c as u32) as int % 16)]
    } else {
        seq![c]
    }
}

/// The escaped characters of a JSON string.
pub open spec fn escaped(s: Seq<char>) -> Seq<char>
    decreases s.len(),
{
    if s.len() == 0 {
        Seq::empty()
    } else {
        escaped(s.drop_last()) + escaped_char(s.last())
    }
}

/// The JSON string literal for `s`.
pub open spec fn json_quoted(s: Seq<char>) -> Seq<char> {
    seq!['"'] + escaped(s) + seq!['"']
}

/// Relies on `serde_json::to_string` on a `str`: the quoted string with the
/// escapes of its formatter; writing a string cannot fail.
#[verifier::external_body]
pub(crate) fn quote(s: &str) -> (r: Result<String, serde_json::Error>)
    ensures
        r is Ok,
        r matches Ok(t) ==> t@ == json_quoted(s@),
{
    serde_json::to_string(s)
}

/// Relies on `serde_json::to_string` on a `serde_json::Value`: the value as JSON
/// text, which depends on the value alone; writing a value cannot fail.
#[verifier::external_body]
pub(crate) fn value_text(v: &serde_json::Value) -> (r: Result<String, serde_json::Error>)
    ensures
        r is Ok,
        r matches Ok(t) ==> t@ == value_json(*v),
{
    serde_json::to_string(v)
}

/// JSON white space, which serde_json skips between tokens.
pub open spec fn json_space(c: char) -> bool {
    c == ' ' || c == '\n' || c == '\t' || c == '\r'
}

/// The first character of `s` that is not JSON white space.
pub open spec fn first_token(s: Seq<char>) -> Option<char>
    decreases s.len(),
{
    if s.len() == 0 {
        None
    } else if json_space(s[0]) {
        first_token(s.drop_first())
    } else {
        Some(s[0])
    }
}

/// Some parsed record is named `k`.
pub open spec fn has_record(v: Seq<(String, Vec<(String, serde_json::Value)>)>, k: Seq<char>) -> bool {
    exists|i: int| 0 <= i < v.len() && v[i].0@ == k
}

/// The expiry field `f` of a parsed entry object is how `expires_at` is written.
pub open spec fn expiry_field_is(f: Option<serde_json::Value>, e: Option<u64>) -> bool {
    match e {
        Some(n) => f matches Some(x) && json_u64(x) == Some(n),
        None => f matches Some(x) && json_u64(x) is None && json_null(x),
    }
}

/// Relies on `serde_json::from_str` into a `BTreeMap` of `BTreeMap`s: a JSON object of
/// objects, returned as its records in key order with the fields of each in name order.
/// - Map keys are unique, so no record name repeats.
/// - Text that does not begin, after white space, with `{` is not an object: an error.
/// - Where the text is a document as `encode` writes it, a successful parse gives back
///   the stored keys as record names, each with a `value` field holding what the
///   value's own text parses to, and an `expires_at` field holding the expiry's
///   number or `null`. (Success itself is not promised:
///   the parser refuses values nested deeper than its recursion limit.)
#[verifier::external_body]
pub(crate) fn parse_records(text: &str) -> (r: Result<
    Vec<(String, Vec<(String, serde_json::Value)>)>,
    serde_json::Error,
>)
    ensures
        r matches Ok(v) ==> forall|i: int, j: int|
            0 <= i < v@.len() && 0 <= j < v@.len() && i != j ==> #[trigger] v@[i].0@ != #[trigger] v@[j].0@,
        first_token(text@) != Some('{') ==> r is Err,
        r matches Ok(v) ==> forall|s: Seq<(Seq<char>, Entry)>|
            unique_keys(s) && text@ == #[trigger] document_text(s, value_texts(s)) ==> {
                &&& forall|k: Seq<char>| #[trigger] has_record(v@, k) <==> has_key(s, k)
                &&& forall|i: int, j: int|
                    0 <= i < v@.len() && 0 <= j < s.len() && #[trigger] v@[i].0@ == #[trigger] s[j].0 ==> {
                        &&& field_value(v@[i].1@, value_name()) == Some(parsed_value(value_json(s[j].1.value)))
                        &&& expiry_field_is(field_value(v@[i].1@, expiry_name()), s[j].1.expires_at)
                    }
            },
{
    let doc: std::collections::BTreeMap<String, std::collections::BTreeMap<String, serde_json::Value>> =
        serde_json::from_str(text)?;
    Ok(doc.into_iter().map(|(k, fields)| (k, fields.into_iter().collect())).collect())
}

} // verus!
