//! The base URL of the Gitea instance a request comes from.
use axum::http::HeaderMap;
use vstd::prelude::*;

use crate::http_headers::{header_text, header_text_of};
use crate::public_url::normalized_base_url;
use crate::text::{
    chars_of, find_char, find_text, index_of_char, index_of_seq, starts_with, string_of,
    trim_end_matches_char, trim_text,
};

verus! {

/// The origin part of a `Referer` value: everything before the first `/`
/// that follows `://`, normalized.
pub open spec fn referer_origin(value: Seq<char>) -> Option<Seq<char>> {
    let cut: Option<int> = match index_of_seq(value, "://"@) {
        Some(i) => match index_of_char(value.skip(i + 3), '/') {
            Some(j) => Some(i + 3 + j),
            None => None,
        },
        None => None,
    };
    match cut {
        Some(k) => normalized_base_url(value.take(k)),
        None => normalized_base_url(value),
    }
}

/// What `infer_gitea_base_url(headers)` returns: the normalized `Origin`
/// header, or failing that the origin of the `Referer` header.
pub open spec fn inferred_gitea_base_url(headers: HeaderMap) -> Option<Seq<char>> {
    let from_origin = match header_text_of(headers, "origin"@) {
        Some(v) => normalized_base_url(v),
        None => None,
    };
    if from_origin is Some {
        from_origin
    } else {
        match header_text_of(headers, "referer"@) {
            Some(v) => referer_origin(v),
            None => None,
        }
    }
}

/// The Gitea base URL that the request's `Origin` or `Referer` names.
pub fn infer_gitea_base_url(headers: &HeaderMap) -> (res: Option<String>)
    ensures
        match res {
            Some(v) => inferred_gitea_base_url(*headers) == Some(v@),
            None => inferred_gitea_base_url(*headers) is None,
        },
{
    match header_origin(headers) {
        Some(v) => Some(v),
        None => header_referer_origin(headers),
    }
}

fn header_origin(headers: &HeaderMap) -> (res: Option<String>)
    ensures
        match res {
            Some(v) => header_text_of(*headers, "origin"@) matches Some(t) && normalized_base_url(
                t,
            ) == Some(v@),
            None => match header_text_of(*headers, "origin"@) {
                Some(t) => normalized_base_url(t) is None,
                None => true,
            },
        },
{
    let value = match header_text(headers, "origin") {
        Some(v) => v,
        None => return None,
    };
    normalize_origin(value.as_str())
}

fn header_referer_origin(headers: &HeaderMap) -> (res: Option<String>)
    ensures
        match res {
            Some(v) => header_text_of(*headers, "referer"@) matches Some(t) && referer_origin(t)
                == Some(v@),
            None => match header_text_of(*headers, "referer"@) {
                Some(t) => referer_origin(t) is None,
                None => true,
            },
        },
{
    let value = match header_text(headers, "referer") {
        Some(v) => v,
        None => return None,
    };
    let chars = chars_of(value.as_str());
    let origin_end: Option<usize> = match find_text(value.as_str(), "://") {
        Some(scheme_end) => {
            proof {
                reveal_strlit("://");
                assert("://"@.len() == 3);
                assert(scheme_end + 3 <= value@.len());
                assert(chars@.len() == value@.len());
                assert(scheme_end + 3 <= chars.len());
            }
            let rest = string_of(&chars, scheme_end + 3, chars.len());
            proof {
                assert(rest@ =~= value@.skip(scheme_end + 3));
            }
            match find_char(rest.as_str(), '/') {
                Some(path_start) => Some(scheme_end + 3 + path_start),
                None => None,
            }
        },
        None => None,
    };
    match origin_end {
        Some(index) => {
            let prefix = string_of(&chars, 0, index);
            proof {
                assert(prefix@ =~= value@.take(index as int));
            }
            normalize_origin(prefix.as_str())
        },
        None => normalize_origin(value.as_str()),
    }
}

fn normalize_origin(value: &str) -> (res: Option<String>)
    ensures
        match res {
            Some(v) => normalized_base_url(value@) == Some(v@),
            None => normalized_base_url(value@) is None,
        },
{
    let trimmed = trim_text(value);
    let v = trim_end_matches_char(trimmed.as_str(), '/');
    if starts_with(v.as_str(), "http://") || starts_with(v.as_str(), "https://") {
        Some(v)
    } else {
        None
    }
}

} // verus!
