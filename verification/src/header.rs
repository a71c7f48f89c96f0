//! Header names, header values and the header collection of the `http` crate, as this
//! library sees them.
//!
//! The three types stay the `http` crate's own. Each is described by what it holds: a
//! name by its text, a value by its bytes, a collection by its fields in iteration
//! order. Everything the library states about headers is stated over these.

use std::str::FromStr;
use vstd::prelude::*;
use vstd::utf8::encode_utf8;

use http::header::{InvalidHeaderName, InvalidHeaderValue, MaxSizeReached, ToStrError};
use http::{HeaderMap, HeaderName, HeaderValue};

verus! {

/// The name of a header field.
#[verifier::external_type_specification]
#[verifier::external_body]
pub struct ExHeaderName(http::HeaderName);

/// The value of a header field.
#[verifier::external_type_specification]
#[verifier::external_body]
pub struct ExHeaderValue(http::HeaderValue);

/// The header collection.
#[verifier::external_type_specification]
#[verifier::external_body]
#[verifier::reject_recursive_types(T)]
pub struct ExHeaderMap<T>(http::HeaderMap<T>);

/// The error of `HeaderName::from_str`.
#[verifier::external_type_specification]
#[verifier::external_body]
pub struct ExInvalidHeaderName(http::header::InvalidHeaderName);

/// The error of `HeaderValue::from_str`.
#[verifier::external_type_specification]
#[verifier::external_body]
pub struct ExInvalidHeaderValue(http::header::InvalidHeaderValue);

/// The error of `HeaderValue::to_str`.
#[verifier::external_type_specification]
#[verifier::external_body]
pub struct ExToStrError(http::header::ToStrError);

/// The error of `HeaderMap::try_insert`.
#[verifier::external_type_specification]
#[verifier::external_body]
pub struct ExMaxSizeReached(http::header::MaxSizeReached);

/// The text of a header name: what `HeaderName::as_str` returns.
pub uninterp spec fn header_name_text(name: http::HeaderName) -> Seq<char>;

/// The bytes of a header value: what `HeaderValue::as_bytes` returns.
pub uninterp spec fn header_value_bytes(value: http::HeaderValue) -> Seq<u8>;

/// The fields of a header collection, each as name text and value bytes, in the order
/// in which `HeaderMap::iter` yields them.
pub uninterp spec fn header_map_entries(map: http::HeaderMap<http::HeaderValue>) -> Seq<
    (Seq<char>, Seq<u8>),
>;

/// The characters a header name may hold: letters, digits and
/// ``! # $ % & ' * + - . ^ _ ` | ~``.
pub open spec fn is_name_char(c: char) -> bool {
    ('a' <= c <= 'z') || ('A' <= c <= 'Z') || ('0' <= c <= '9') || c == '!' || c == '#' || c
        == '$' || c == '%' || c == '&' || c == '\'' || c == '*' || c == '+' || c == '-' || c == '.'
        || c == '^' || c == '_' || c == '`' || c == '|' || c == '~'
}

/// The longest header name, in characters.
pub const MAX_HEADER_NAME_LEN: usize = 65535;

/// Whether `s` is accepted as a header name.
pub open spec fn is_header_name(s: Seq<char>) -> bool {
    &&& 1 <= s.len() <= MAX_HEADER_NAME_LEN
    &&& forall|i: int| 0 <= i < s.len() ==> is_name_char(#[trigger] s[i])
}

/// `c` with the letters `A` to `Z` mapped to `a` to `z`.
pub open spec fn ascii_lower(c: char) -> char {
    if 'A' <= c <= 'Z' {
        ((c as u8 + 32) as u8) as char
    } else {
        c
    }
}

/// `s` with each character mapped by [`ascii_lower`].
pub open spec fn ascii_lowercase(s: Seq<char>) -> Seq<char> {
    Seq::new(s.len(), |i: int| ascii_lower(s[i]))
}

/// Whether a string made of the characters `s` is accepted as a header value: no
/// control character but the tab, and no DEL.
pub open spec fn is_header_value_text(s: Seq<char>) -> bool {
    forall|i: int|
        0 <= i < s.len() ==> (#[trigger] s[i] == '\t' || (s[i] as u32 >= 32 && s[i] as u32
            != 127))
}

/// Whether `b` is a visible ASCII byte or a tab.
pub open spec fn is_visible_ascii(b: u8) -> bool {
    (32 <= b < 127) || b == 9
}

/// Whether every byte of `bytes` is visible ASCII or a tab.
pub open spec fn all_visible_ascii(bytes: Seq<u8>) -> bool {
    forall|i: int| 0 <= i < bytes.len() ==> is_visible_ascii(#[trigger] bytes[i])
}

/// The characters that the ASCII bytes `bytes` stand for.
pub open spec fn ascii_text(bytes: Seq<u8>) -> Seq<char> {
    Seq::new(bytes.len(), |i: int| bytes[i] as char)
}

/// The value of the first field of `entries` named `name`.
pub open spec fn lookup(entries: Seq<(Seq<char>, Seq<u8>)>, name: Seq<char>) -> Option<Seq<u8>>
    decreases entries.len(),
{
    if entries.len() == 0 {
        None
    } else if entries[0].0 == name {
        Some(entries[0].1)
    } else {
        lookup(entries.drop_first(), name)
    }
}

/// `entries` without the fields named `name`.
pub open spec fn without_name(entries: Seq<(Seq<char>, Seq<u8>)>, name: Seq<char>) -> Seq<
    (Seq<char>, Seq<u8>),
>
    decreases entries.len(),
{
    if entries.len() == 0 {
        Seq::empty()
    } else if entries[0].0 == name {
        without_name(entries.drop_first(), name)
    } else {
        seq![entries[0]] + without_name(entries.drop_first(), name)
    }
}

/// `entries` after `name` is set to `value`: the first field of that name takes the
/// value and the others of that name leave; where there is none, the field comes last.
pub open spec fn with_field(
    entries: Seq<(Seq<char>, Seq<u8>)>,
    name: Seq<char>,
    value: Seq<u8>,
) -> Seq<(Seq<char>, Seq<u8>)>
    decreases entries.len(),
{
    if entries.len() == 0 {
        seq![(name, value)]
    } else if entries[0].0 == name {
        seq![(name, value)] + without_name(entries.drop_first(), name)
    } else {
        seq![entries[0]] + with_field(entries.drop_first(), name, value)
    }
}

/// `entries` after each field of `fields` is set in turn, as [`with_field`] says.
pub open spec fn with_fields(
    entries: Seq<(Seq<char>, Seq<u8>)>,
    fields: Seq<(Seq<char>, Seq<u8>)>,
) -> Seq<(Seq<char>, Seq<u8>)>
    decreases fields.len(),
{
    if fields.len() == 0 {
        entries
    } else {
        with_fields(with_field(entries, fields[0].0, fields[0].1), fields.drop_first())
    }
}

/// Whether no two fields of `entries` have the same name.
pub open spec fn names_are_distinct(entries: Seq<(Seq<char>, Seq<u8>)>) -> bool {
    forall|i: int, j: int|
        0 <= i < j < entries.len() ==> (#[trigger] entries[i]).0 != (#[trigger] entries[j]).0
}

/// The number of fields below which a header collection accepts every insertion.
pub const HEADER_MAP_SAFE_LEN: usize = 6554;

/// `HeaderName::from_str`: accepts exactly the texts of 1 to 65535 header-name
/// characters, and yields the name with upper-case letters put in lower case.
///
/// The crate checks the bytes of the string. A character beyond ASCII is made of bytes
/// from 128 on, none of which is a header-name character, so a string passes exactly
/// when each of its characters does, and then has one byte for each character.
#[verifier::external_body]
pub(crate) fn header_name_from_str(s: &str) -> (r: Result<HeaderName, InvalidHeaderName>)
    ensures
        r is Ok <==> is_header_name(s@),
        r matches Ok(name) ==> header_name_text(name) == ascii_lowercase(s@),
{
    HeaderName::from_str(s)
}

/// `HeaderName::as_str`: the text of the name.
#[verifier::external_body]
pub(crate) fn header_name_as_str(name: &HeaderName) -> (r: &str)
    ensures
        r@ == header_name_text(*name),
{
    name.as_str()
}

/// `HeaderValue::from_str`: accepts exactly the strings without control characters
/// (the tab aside) and without DEL, and keeps the string's bytes.
///
/// The crate checks each byte of the string: it must be a tab, or at least 32 and
/// not 127. The bytes of a character beyond ASCII are all 128 or more, so a string
/// passes exactly when each of its characters does.
#[verifier::external_body]
pub(crate) fn header_value_from_str(s: &str) -> (r: Result<HeaderValue, InvalidHeaderValue>)
    ensures
        r is Ok <==> is_header_value_text(s@),
        r matches Ok(value) ==> header_value_bytes(value) == encode_utf8(s@),
{
    HeaderValue::from_str(s)
}

/// `HeaderValue::to_str`: succeeds exactly when every byte is a tab or from 32 to
/// 126, and then yields the bytes as a string, which has one character for each byte.
#[verifier::external_body]
pub(crate) fn header_value_to_str(value: &HeaderValue) -> (r: Result<&str, ToStrError>)
    ensures
        r is Ok <==> all_visible_ascii(header_value_bytes(*value)),
        r matches Ok(s) ==> s@ == ascii_text(header_value_bytes(*value)),
{
    value.to_str()
}

/// `HeaderValue::as_bytes`: the bytes of the value.
#[verifier::external_body]
pub(crate) fn header_value_as_bytes(value: &HeaderValue) -> (r: &[u8])
    ensures
        r@ == header_value_bytes(*value),
{
    value.as_bytes()
}

/// `HeaderMap::new`: a collection without fields.
#[verifier::external_body]
pub(crate) fn header_map_new() -> (map: HeaderMap<HeaderValue>)
    ensures
        header_map_entries(map) == Seq::<(Seq<char>, Seq<u8>)>::empty(),
{
    HeaderMap::new()
}

/// `HeaderMap::try_insert`: on success the name is set to the value, as [`with_field`]
/// says; on refusal the fields are as before.
///
/// On success the crate gives the value to the entry of that name and drops the
/// entry's further values, or else adds an entry at the end; iteration goes through
/// the entries in order, each with its further values. The crate refuses only when
/// its table would have to grow past 32768 slots or it already holds 32768 names. It
/// grows the table when three quarters of it are used or, after many collisions, when
/// a fifth is. So with fewer than a fifth of 32768 fields it does not refuse.
#[verifier::external_body]
pub(crate) fn header_map_try_insert(
    map: &mut HeaderMap<HeaderValue>,
    name: HeaderName,
    value: HeaderValue,
) -> (r: Result<(), MaxSizeReached>)
    ensures
        r is Ok ==> header_map_entries(*final(map)) == with_field(
            header_map_entries(*old(map)),
            header_name_text(name),
            header_value_bytes(value),
        ),
        r is Err ==> header_map_entries(*final(map)) == header_map_entries(*old(map)),
        header_map_entries(*old(map)).len() < HEADER_MAP_SAFE_LEN ==> r is Ok,
{
    match map.try_insert(name, value) {
        Ok(_) => Ok(()),
        Err(refused) => Err(refused),
    }
}

/// `HeaderMap::get` with a header name in lower case: the first value under that
/// name, which is the one that iteration yields first.
#[verifier::external_body]
pub(crate) fn header_map_get<'a>(map: &'a HeaderMap<HeaderValue>, name: &str) -> (r: Option<
    &'a HeaderValue,
>)
    requires
        is_header_name(name@),
        ascii_lowercase(name@) == name@,
    ensures
        r is Some <==> lookup(header_map_entries(*map), name@) is Some,
        r matches Some(value) ==> Some(header_value_bytes(*value)) == lookup(
            header_map_entries(*map),
            name@,
        ),
{
    map.get(name)
}

/// `HeaderMap::iter`, collected: the fields in iteration order.
#[verifier::external_body]
pub(crate) fn header_map_fields<'a>(map: &'a HeaderMap<HeaderValue>) -> (r: Vec<
    (&'a HeaderName, &'a HeaderValue),
>)
    ensures
        r@.len() == header_map_entries(*map).len(),
        forall|i: int|
            0 <= i < r@.len() ==> (header_name_text(*(#[trigger] r@[i]).0), header_value_bytes(
                *r@[i].1,
            )) == header_map_entries(*map)[i],
{
    map.iter().collect()
}

} // verus!
