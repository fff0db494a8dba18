//! Request headers, read through `http`'s `HeaderMap` (as re-exported by axum).
use axum::http::{HeaderMap, HeaderValue};
use vstd::prelude::*;

use crate::text::{ascii_lower, trim};

verus! {

#[verifier::external_type_specification]
#[verifier::external_body]
#[verifier::reject_recursive_types(T)]
pub struct ExHeaderMap<T>(HeaderMap<T>);

#[verifier::external_type_specification]
#[verifier::external_body]
pub struct ExHeaderValue(HeaderValue);

/// What a header map holds, as this library reads it: for each header name
/// (in the lowercase form that `http` stores names in) whose first value
/// consists of visible ASCII characters and tabs, the text of that value.
pub uninterp spec fn header_texts(headers: HeaderMap) -> Map<Seq<char>, Seq<char>>;

/// What a header value holds, read as text: the characters whose UTF-8
/// bytes are the value's bytes.
pub uninterp spec fn header_value_text(value: HeaderValue) -> Seq<char>;

/// The text of header `name`, if the map holds it.
pub open spec fn header_text_of(headers: HeaderMap, name: Seq<char>) -> Option<Seq<char>> {
    let key = ascii_lower(name);
    if header_texts(headers).contains_key(key) {
        Some(header_texts(headers)[key])
    } else {
        None
    }
}

/// The trimmed text of header `name`, if it is present and not blank.
pub open spec fn header_field(headers: HeaderMap, name: Seq<char>) -> Option<Seq<char>> {
    match header_text_of(headers, name) {
        Some(v) => if trim(v).len() > 0 {
            Some(trim(v))
        } else {
            None
        },
        None => None,
    }
}

/// A text that `HeaderValue::from_str` accepts: no control character other
/// than tab, and no DEL (characters beyond ASCII are accepted, their UTF-8
/// bytes all being 128 or more).
pub open spec fn valid_header_value_text(s: Seq<char>) -> bool {
    forall|i: int|
        0 <= i < s.len() ==> ((#[trigger] s[i] >= ' ' && s[i] != '\u{7f}') || s[i] == '\t')
}

/// `HeaderMap::get(name)` followed by `HeaderValue::to_str`: the text of
/// the first value stored under `name` (looked up case-insensitively), when
/// that value is visible ASCII; `None` when the name is absent or invalid or
/// the value holds other bytes.
#[verifier::external_body]
pub(crate) fn header_text(headers: &HeaderMap, name: &str) -> (res: Option<String>)
    ensures
        res is Some <==> header_texts(*headers).contains_key(ascii_lower(name@)),
        res matches Some(v) ==> v@ == header_texts(*headers)[ascii_lower(name@)],
{
    match headers.get(name) {
        Some(value) => match value.to_str() {
            Ok(text) => Some(text.to_string()),
            Err(_) => None,
        },
        None => None,
    }
}

/// `HeaderValue::from_str`: succeeds exactly on the texts that
/// `valid_header_value_text` describes, and the value then holds the bytes
/// of `text`.
#[verifier::external_body]
pub(crate) fn header_value_from_text(text: &str) -> (res: Option<HeaderValue>)
    ensures
        res is Some <==> valid_header_value_text(text@),
        res matches Some(v) ==> header_value_text(v) == text@,
{
    match HeaderValue::from_str(text) {
        Ok(value) => Some(value),
        Err(_) => None,
    }
}

} // verus!
