//! URL parsing and editing, done by the `url` crate.
//!
//! A `url::Url` is fully described by its serialization, so the library
//! hands URLs around as text. Each trusted function below parses its text
//! argument with `Url::parse` and then makes one query or edit; what it
//! returns is named by an uninterpreted function of the text it was given.
use url::Url;
use vstd::prelude::*;

verus! {

/// `Url::parse(text)` succeeds.
pub uninterp spec fn url_parses(text: Seq<char>) -> bool;

/// `Url::as_str` of the parsed URL: its normalized serialization.
pub uninterp spec fn url_serialization(text: Seq<char>) -> Seq<char>;

/// `Url::scheme` of the parsed URL.
pub uninterp spec fn url_scheme(text: Seq<char>) -> Seq<char>;

/// `Url::host_str` of the parsed URL.
pub uninterp spec fn url_host(text: Seq<char>) -> Option<Seq<char>>;

/// `Url::port` of the parsed URL: the explicit port, when it is not the
/// scheme's default.
pub uninterp spec fn url_port(text: Seq<char>) -> Option<u16>;

/// `Url::port_or_known_default` of the parsed URL.
pub uninterp spec fn url_known_port(text: Seq<char>) -> Option<u16>;

/// `Url::path` of the parsed URL.
pub uninterp spec fn url_path(text: Seq<char>) -> Seq<char>;

/// The serialization after `query_pairs_mut().append_pair(name, value)` on
/// the parsed URL.
pub uninterp spec fn url_with_pair(text: Seq<char>, name: Seq<char>, value: Seq<char>) -> Seq<char>;

/// `Url::set_port(port)` succeeds on the parsed URL.
pub uninterp spec fn url_port_settable(text: Seq<char>, port: Option<u16>) -> bool;

/// The serialization after `set_port(port)` on the parsed URL.
pub uninterp spec fn url_with_port(text: Seq<char>, port: Option<u16>) -> Seq<char>;

/// The serialization after `set_path(path)` on the parsed URL.
pub uninterp spec fn url_with_path(text: Seq<char>, path: Seq<char>) -> Seq<char>;

/// The serialization after `set_query(query)` on the parsed URL.
pub uninterp spec fn url_with_query(text: Seq<char>, query: Option<Seq<char>>) -> Seq<char>;

/// The serialization after `set_fragment(fragment)` on the parsed URL.
pub uninterp spec fn url_with_fragment(text: Seq<char>, fragment: Option<Seq<char>>) -> Seq<char>;

/// The parts of a parsed URL that the library reads.
pub struct ParsedUrl {
    pub text: String,
    pub scheme: String,
    pub host: Option<String>,
    pub port: Option<u16>,
    pub known_port: Option<u16>,
    pub path: String,
}

pub open spec fn opt_view(o: Option<String>) -> Option<Seq<char>> {
    match o {
        Some(s) => Some(s@),
        None => None,
    }
}

/// The text of an optional string slice.
pub open spec fn str_view(o: Option<&str>) -> Option<Seq<char>> {
    match o {
        Some(s) => Some(s@),
        None => None,
    }
}

/// Why `url_set_port` failed.
pub enum UrlPortError {
    Unparsable,
    PortRejected,
}

/// `Url::parse(text)`, read through its accessors `as_str`, `scheme`,
/// `host_str`, `port`, `port_or_known_default` and `path`.
#[verifier::external_body]
pub(crate) fn parse_url(text: &str) -> (res: Option<ParsedUrl>)
    ensures
        res is Some <==> url_parses(text@),
        res matches Some(u) ==> u.text@ == url_serialization(text@),
        res matches Some(u) ==> u.scheme@ == url_scheme(text@),
        res matches Some(u) ==> opt_view(u.host) == url_host(text@),
        res matches Some(u) ==> u.port == url_port(text@),
        res matches Some(u) ==> u.known_port == url_known_port(text@),
        res matches Some(u) ==> u.path@ == url_path(text@),
{
    match Url::parse(text) {
        Ok(url) => Some(
            ParsedUrl {
                text: url.as_str().to_string(),
                scheme: url.scheme().to_string(),
                host: url.host_str().map(|h| h.to_string()),
                port: url.port(),
                known_port: url.port_or_known_default(),
                path: url.path().to_string(),
            },
        ),
        Err(_) => None,
    }
}

/// `Url::parse(text)` followed by `query_pairs_mut().append_pair(name, value)`.
/// The serialization it returns parses again, as the crate's own invariant
/// check (`Url::check_invariants`) asserts of every `Url`.
#[verifier::external_body]
pub(crate) fn url_append_pair(text: &str, name: &str, value: &str) -> (res: Option<String>)
    ensures
        res is Some <==> url_parses(text@),
        res matches Some(s) ==> s@ == url_with_pair(text@, name@, value@),
        res matches Some(s) ==> url_parses(s@),
{
    match Url::parse(text) {
        Ok(mut url) => {
            url.query_pairs_mut().append_pair(name, value);
            Some(url.to_string())
        },
        Err(_) => None,
    }
}

/// `Url::parse(text)` followed by `set_port(port)`. The serialization it
/// returns parses again (`Url::check_invariants`).
#[verifier::external_body]
pub(crate) fn url_set_port(text: &str, port: Option<u16>) -> (res: Result<String, UrlPortError>)
    ensures
        res matches Err(UrlPortError::Unparsable) <==> !url_parses(text@),
        res matches Err(UrlPortError::PortRejected) <==> (url_parses(text@) && !url_port_settable(text@, port)),
        res matches Ok(s) ==> s@ == url_with_port(text@, port),
        res matches Ok(s) ==> url_parses(s@),
{
    match Url::parse(text) {
        Ok(mut url) => match url.set_port(port) {
            Ok(()) => Ok(url.to_string()),
            Err(()) => Err(UrlPortError::PortRejected),
        },
        Err(_) => Err(UrlPortError::Unparsable),
    }
}

/// `Url::parse(text)` followed by `set_path(path)`. The serialization it
/// returns parses again (`Url::check_invariants`).
#[verifier::external_body]
pub(crate) fn url_set_path(text: &str, path: &str) -> (res: Option<String>)
    ensures
        res is Some <==> url_parses(text@),
        res matches Some(s) ==> s@ == url_with_path(text@, path@),
        res matches Some(s) ==> url_parses(s@),
{
    match Url::parse(text) {
        Ok(mut url) => {
            url.set_path(path);
            Some(url.to_string())
        },
        Err(_) => None,
    }
}

/// `Url::parse(text)` followed by `set_query(query)`. The serialization it
/// returns parses again (`Url::check_invariants`).
#[verifier::external_body]
pub(crate) fn url_set_query(text: &str, query: Option<&str>) -> (res: Option<String>)
    ensures
        res is Some <==> url_parses(text@),
        res matches Some(s) ==> s@ == url_with_query(text@, str_view(query)),
        res matches Some(s) ==> url_parses(s@),
{
    match Url::parse(text) {
        Ok(mut url) => {
            url.set_query(query);
            Some(url.to_string())
        },
        Err(_) => None,
    }
}

/// `Url::parse(text)` followed by `set_fragment(fragment)`. The
/// serialization it returns parses again (`Url::check_invariants`).
#[verifier::external_body]
pub(crate) fn url_set_fragment(text: &str, fragment: Option<&str>) -> (res: Option<String>)
    ensures
        res is Some <==> url_parses(text@),
        res matches Some(s) ==> s@ == url_with_fragment(text@, str_view(fragment)),
        res matches Some(s) ==> url_parses(s@),
{
    match Url::parse(text) {
        Ok(mut url) => {
            url.set_fragment(fragment);
            Some(url.to_string())
        },
        Err(_) => None,
    }
}

} // verus!
