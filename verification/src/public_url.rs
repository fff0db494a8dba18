//! The public base URL of this service.
use axum::http::HeaderMap;
use vstd::prelude::*;

use crate::http_headers::{header_field, header_text};
use crate::text::{
    concat, copy_str, has_prefix, is_empty_text, starts_with, trim, trim_end_char,
    trim_end_matches_char, trim_text,
};

verus! {

/// What `normalize_base_url(value)` returns: `value` trimmed and without
/// trailing slashes, when it then begins with `http://` or `https://`.
pub open spec fn normalized_base_url(value: Seq<char>) -> Option<Seq<char>> {
    let v = trim_end_char(trim(value), '/');
    if has_prefix(v, "http://"@) || has_prefix(v, "https://"@) {
        Some(v)
    } else {
        None
    }
}

/// What `infer_manager_base_url(headers, configured)` returns: the
/// configured URL when it normalizes; otherwise the URL made of the
/// forwarded protocol (default `http`) and the forwarded host, or failing
/// that the `Host` header.
pub open spec fn inferred_manager_base_url(
    headers: HeaderMap,
    configured: Option<Seq<char>>,
) -> Option<Seq<char>> {
    let from_config = match configured {
        Some(c) => normalized_base_url(c),
        None => None,
    };
    if from_config is Some {
        from_config
    } else {
        let host = match header_field(headers, "x-forwarded-host"@) {
            Some(h) => Some(h),
            None => header_field(headers, "host"@),
        };
        match host {
            Some(h) => {
                let proto = match header_field(headers, "x-forwarded-proto"@) {
                    Some(p) => p,
                    None => "http"@,
                };
                normalized_base_url(proto + "://"@ + h)
            },
            None => None,
        }
    }
}

pub open spec fn str_opt_view(o: Option<&str>) -> Option<Seq<char>> {
    match o {
        Some(s) => Some(s@),
        None => None,
    }
}

/// The base URL under which clients reach this service.
pub fn infer_manager_base_url(headers: &HeaderMap, configured: Option<&str>) -> (res: Option<String>)
    ensures
        match res {
            Some(v) => inferred_manager_base_url(*headers, str_opt_view(configured)) == Some(v@),
            None => inferred_manager_base_url(*headers, str_opt_view(configured)) is None,
        },
{
    if let Some(c) = configured {
        if let Some(value) = normalize_base_url(c) {
            return Some(value);
        }
    }
    let host = match header_value(headers, "x-forwarded-host") {
        Some(h) => h,
        None => match header_value(headers, "host") {
            Some(h) => h,
            None => return None,
        },
    };
    let proto = match header_value(headers, "x-forwarded-proto") {
        Some(p) => p,
        None => copy_str("http"),
    };
    let joined = concat(proto.as_str(), "://");
    let url = concat(joined.as_str(), host.as_str());
    normalize_base_url(url.as_str())
}

/// The trimmed text of header `name`, if present and not blank.
pub fn header_value(headers: &HeaderMap, name: &str) -> (res: Option<String>)
    ensures
        match res {
            Some(v) => header_field(*headers, name@) == Some(v@),
            None => header_field(*headers, name@) is None,
        },
{
    match header_text(headers, name) {
        Some(value) => {
            let trimmed = trim_text(value.as_str());
            if is_empty_text(trimmed.as_str()) {
                None
            } else {
                Some(trimmed)
            }
        },
        None => None,
    }
}

/// `value` trimmed and without trailing slashes, if it is an http(s) URL.
pub fn normalize_base_url(value: &str) -> (res: Option<String>)
    ensures
        match res {
            Some(v) => normalized_base_url(value@) == Some(v@),
            None => normalized_base_url(value@) is None,
        },
{
    let trimmed = trim_text(value);
    let v = trim_end_matches_char(trimmed.as_str(), '/');
    if starts_with(v.as_str(), "http://") || starts_with(v.as_str(), "https://") {
        Some(v)
    } else {
        None
    }
}


// ---------------------------------------------------------------------------
// Laws
// ---------------------------------------------------------------------------
/// When no configured URL applies, the inferred base URL keeps the protocol
/// that `X-Forwarded-Proto` names, whichever header gave the host
/// (`X-Forwarded-Host`, or else `Host`): any URL inferred begins with that
/// protocol and `://` (when the host is more than slashes), and for `http`
/// or `https` with a host not ending in `/`, it is exactly
/// `{proto}://{host}`.
pub proof fn lemma_forwarded_proto_is_kept(
    headers: HeaderMap,
    configured: Option<Seq<char>>,
    proto: Seq<char>,
    host: Seq<char>,
)
    requires
        configured matches Some(c) ==> normalized_base_url(c) is None,
        header_field(headers, "x-forwarded-proto"@) == Some(proto),
        header_field(headers, "x-forwarded-host"@) == Some(host) || (header_field(
            headers,
            "x-forwarded-host"@,
        ) is None && header_field(headers, "host"@) == Some(host)),
    ensures
        (exists|j: int| 0 <= j < host.len() && host[j] != '/') ==> (inferred_manager_base_url(
            headers,
            configured,
        ) matches Some(r) ==> has_prefix(r, proto + "://"@)),
        (proto == "http"@ || proto == "https"@) && host.len() > 0 && host.last() != '/'
            ==> inferred_manager_base_url(headers, configured) == Some(proto + "://"@ + host),
{
    reveal_strlit("://");
    reveal_strlit("http");
    reveal_strlit("https");
    reveal_strlit("http://");
    reveal_strlit("https://");
    let fp = header_text_of_field(headers, "x-forwarded-proto"@);
    let fh = if header_field(headers, "x-forwarded-host"@) == Some(host) {
        header_text_of_field(headers, "x-forwarded-host"@)
    } else {
        header_text_of_field(headers, "host"@)
    };
    crate::text::lemma_trim_ends(fp);
    crate::text::lemma_trim_ends(fh);
    let x = proto + "://"@ + host;
    let n: int = proto.len() as int + 3;
    assert(x[0] == proto[0]);
    assert(x.last() == host.last());
    crate::text::lemma_trim_start_skip(x, 0);
    assert(x.skip(0) =~= x);
    crate::text::lemma_trim_end_take(x, x.len() as int);
    assert(x.take(x.len() as int) =~= x);
    assert(trim(x) == x);
    let m = crate::text::lemma_trim_end_char_index(x, '/');
    if exists|j: int| 0 <= j < host.len() && host[j] != '/' {
        let j = choose|j: int| 0 <= j < host.len() && host[j] != '/';
        assert(x[n + j] == host[j]);
        assert(m > n + j);
        assert(x.take(m).take(n) =~= proto + "://"@);
    }
    if (proto == "http"@ || proto == "https"@) && host.len() > 0 && host.last() != '/' {
        assert(trim_end_char(x, '/') == x);
        if proto == "http"@ {
            assert(x.take(7) =~= "http://"@);
        } else {
            assert(x.take(8) =~= "https://"@);
        }
    }
}

/// The header text that `header_field(headers, name)` trims.
spec fn header_text_of_field(headers: HeaderMap, name: Seq<char>) -> Seq<char> {
    match crate::http_headers::header_text_of(headers, name) {
        Some(v) => v,
        None => Seq::empty(),
    }
}

} // verus!
