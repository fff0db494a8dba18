//! OAuth with Gitea: the authorize URL, the session cookie, the endpoints.
use axum::http::{HeaderMap, HeaderValue};
use vstd::prelude::*;

use crate::config::AuthConfig;
use crate::http_headers::{
    header_text, header_texts, header_value_from_text, header_value_text, valid_header_value_text,
};
use crate::text::{
    concat, split_char, split_on, split_once, split_once_char, same_text, string_views, trim,
    trim_end_char, trim_end_matches_char, trim_text,
};
use crate::web_url::{url_append_pair, url_parses, url_with_pair};

verus! {

pub const SESSION_COOKIE: &'static str = "workspace_manager_session";

/// The query of the OAuth callback.
pub struct OAuthCallbackQuery {
    pub code: String,
    pub state: String,
}

/// The query that starts a login.
pub struct AuthStartQuery {
    pub return_to: Option<String>,
    pub gitea_base_url: Option<String>,
    pub popup: Option<bool>,
}

/// Why an authorize URL could not be built.
#[derive(Clone, Copy, PartialEq, Eq, Structural, Debug)]
pub enum OAuthUrlError {
    InvalidBaseUrl,
}

// ---------------------------------------------------------------------------
// Specifications
// ---------------------------------------------------------------------------
/// `{base without trailing slashes}/login/oauth/authorize`.
pub open spec fn authorize_endpoint(base: Seq<char>) -> Seq<char> {
    trim_end_char(base, '/') + "/login/oauth/authorize"@
}

/// `{base without trailing slashes}/login/oauth/access_token`.
pub open spec fn token_endpoint_of(base: Seq<char>) -> Seq<char> {
    trim_end_char(base, '/') + "/login/oauth/access_token"@
}

/// `{base without trailing slashes}/api/v1/user`.
pub open spec fn user_endpoint_of(base: Seq<char>) -> Seq<char> {
    trim_end_char(base, '/') + "/api/v1/user"@
}

/// The authorize URL with its four query parameters appended in order.
pub open spec fn authorize_url_of(
    base: Seq<char>,
    client_id: Seq<char>,
    redirect_uri: Seq<char>,
    state: Seq<char>,
) -> Seq<char> {
    url_with_pair(
        url_with_pair(
            url_with_pair(
                url_with_pair(authorize_endpoint(base), "client_id"@, client_id),
                "redirect_uri"@,
                redirect_uri,
            ),
            "response_type"@,
            "code"@,
        ),
        "state"@,
        state,
    )
}

/// The `Set-Cookie` value that carries a session id.
pub open spec fn session_cookie_text(session_id: Seq<char>) -> Seq<char> {
    SESSION_COOKIE@ + "="@ + session_id + "; Path=/; HttpOnly; SameSite=Lax"@
}

/// The value of the first `name=value` part whose name is the session
/// cookie's, among the `;`-separated parts of a `Cookie` header.
pub open spec fn first_session_value(parts: Seq<Seq<char>>) -> Option<Seq<char>>
    decreases parts.len(),
{
    if parts.len() == 0 {
        None
    } else {
        match split_once(trim(parts[0]), '=') {
            Some(p) => if p.0 == SESSION_COOKIE@ {
                Some(p.1)
            } else {
                first_session_value(parts.drop_first())
            },
            None => first_session_value(parts.drop_first()),
        }
    }
}

pub open spec fn session_id_in_cookie(cookie: Seq<char>) -> Option<Seq<char>> {
    first_session_value(split_on(cookie, ';'))
}

/// What `session_id_from_headers(headers)` returns.
pub open spec fn session_id_of_headers(headers: HeaderMap) -> Option<Seq<char>> {
    let key = crate::text::ascii_lower("cookie"@);
    if header_texts(headers).contains_key(key) {
        session_id_in_cookie(header_texts(headers)[key])
    } else {
        None
    }
}

// ---------------------------------------------------------------------------
// Executable functions
// ---------------------------------------------------------------------------
/// The Gitea URL that asks the user to authorize this service.
pub fn build_authorize_url(
    gitea_base_url: &str,
    auth: &AuthConfig,
    redirect_uri: &str,
    state: &str,
) -> (res: Result<String, OAuthUrlError>)
    ensures
        res is Ok <==> url_parses(authorize_endpoint(gitea_base_url@)),
        res matches Ok(u) ==> u@ == authorize_url_of(
            gitea_base_url@,
            auth.client_id@,
            redirect_uri@,
            state@,
        ),
{
    let base = trim_end_matches_char(gitea_base_url, '/');
    let endpoint = concat(base.as_str(), "/login/oauth/authorize");
    let with_client = match url_append_pair(endpoint.as_str(), "client_id", auth.client_id.as_str()) {
        Some(u) => u,
        None => return Err(OAuthUrlError::InvalidBaseUrl),
    };
    let with_redirect = match url_append_pair(with_client.as_str(), "redirect_uri", redirect_uri) {
        Some(u) => u,
        None => return Err(OAuthUrlError::InvalidBaseUrl),
    };
    let with_type = match url_append_pair(with_redirect.as_str(), "response_type", "code") {
        Some(u) => u,
        None => return Err(OAuthUrlError::InvalidBaseUrl),
    };
    match url_append_pair(with_type.as_str(), "state", state) {
        Some(u) => Ok(u),
        None => Err(OAuthUrlError::InvalidBaseUrl),
    }
}

/// The token endpoint of a Gitea instance.
pub fn token_endpoint(gitea_base_url: &str) -> (res: String)
    ensures
        res@ == token_endpoint_of(gitea_base_url@),
{
    let base = trim_end_matches_char(gitea_base_url, '/');
    concat(base.as_str(), "/login/oauth/access_token")
}

/// The endpoint that describes the authenticated Gitea user.
pub fn user_endpoint(gitea_base_url: &str) -> (res: String)
    ensures
        res@ == user_endpoint_of(gitea_base_url@),
{
    let base = trim_end_matches_char(gitea_base_url, '/');
    concat(base.as_str(), "/api/v1/user")
}

/// The text of the `Set-Cookie` header that stores a session id.
pub fn session_cookie_value(session_id: &str) -> (res: String)
    ensures
        res@ == session_cookie_text(session_id@),
{
    let a = concat(SESSION_COOKIE, "=");
    let b = concat(a.as_str(), session_id);
    concat(b.as_str(), "; Path=/; HttpOnly; SameSite=Lax")
}

/// The `Set-Cookie` header value that stores a session id: the text of
/// `session_cookie_value(session_id)`.
pub fn session_cookie_header(session_id: &str) -> (res: HeaderValue)
    requires
        valid_header_value_text(session_cookie_text(session_id@)),
    ensures
        header_value_text(res) == session_cookie_text(session_id@),
{
    let text = session_cookie_value(session_id);
    match header_value_from_text(text.as_str()) {
        Some(value) => value,
        None => vstd::pervasive::unreached(),
    }
}

/// The session id that the request's `Cookie` header carries.
pub fn session_id_from_headers(headers: &HeaderMap) -> (res: Option<String>)
    ensures
        match res {
            Some(v) => session_id_of_headers(*headers) == Some(v@),
            None => session_id_of_headers(*headers) is None,
        },
{
    let cookie = match header_text(headers, "cookie") {
        Some(c) => c,
        None => return None,
    };
    assert(session_id_of_headers(*headers) == session_id_in_cookie(cookie@));
    let parts = split_char(cookie.as_str(), ';');
    let mut i: usize = 0;
    proof {
        assert(string_views(parts@).skip(0) =~= string_views(parts@));
    }
    while i < parts.len()
        invariant
            i <= parts@.len(),
            string_views(parts@) == split_on(cookie@, ';'),
            session_id_of_headers(*headers) == session_id_in_cookie(cookie@),
            first_session_value(string_views(parts@)) == first_session_value(
                string_views(parts@).skip(i as int),
            ),
        decreases parts@.len() - i,
    {
        let part = trim_text(parts[i].as_str());
        proof {
            let ps = string_views(parts@);
            assert(ps.skip(i as int)[0] == parts@[i as int]@);
            assert(ps.skip(i as int).drop_first() =~= ps.skip(i + 1));
        }
        if let Some((name, value)) = split_once_char(part.as_str(), '=') {
            if same_text(name.as_str(), SESSION_COOKIE) {
                proof {
                    let rest = string_views(parts@).skip(i as int);
                    assert(rest.len() > 0);
                    assert(first_session_value(rest) == Some(value@));
                }
                return Some(value);
            }
        }
        i = i + 1;
    }
    proof {
        assert(string_views(parts@).skip(i as int) =~= Seq::<Seq<char>>::empty());
    }
    None
}

// ---------------------------------------------------------------------------
// Laws
// ---------------------------------------------------------------------------
proof fn lemma_trim_unchanged(s: Seq<char>)
    requires
        s.len() > 0,
        !crate::text::is_white_space(s[0]),
        !crate::text::is_white_space(s.last()),
    ensures
        trim(s) == s,
{
    crate::text::lemma_trim_start_skip(s, 0);
    assert(s.skip(0) =~= s);
    crate::text::lemma_trim_end_take(s, s.len() as int);
    assert(s.take(s.len() as int) =~= s);
}

/// The first `name=value` part of `cookie` holds the session id `id`.
proof fn lemma_cookie_first_part(cookie: Seq<char>, id: Seq<char>, k: int)
    requires
        id.len() > 0 ==> !crate::text::is_white_space(id.last()),
        0 <= k <= cookie.len(),
        cookie.take(k) == SESSION_COOKIE@ + "="@ + id,
        forall|j: int| 0 <= j < k ==> cookie[j] != ';',
        k == cookie.len() || cookie[k] == ';',
    ensures
        session_id_in_cookie(cookie) == Some(id),
{
    reveal_strlit("workspace_manager_session");
    reveal_strlit("=");
    let name = SESSION_COOKIE@;
    let part = cookie.take(k);
    assert(name.len() == 25);
    if k < cookie.len() {
        crate::text::lemma_split_on_step(cookie, ';', k);
    } else {
        crate::text::lemma_split_on_last(cookie, ';');
        assert(cookie =~= part);
    }
    let parts = split_on(cookie, ';');
    assert(parts[0] == part);
    assert(part[0] == 'w');
    if id.len() > 0 {
        assert(part.last() == id.last());
    } else {
        assert(part.last() == '=');
    }
    lemma_trim_unchanged(part);
    assert forall|j: int| 0 <= j < 25 implies part[j] != '=' by {
        assert(part[j] == name[j]);
    }
    assert(part[25] == '=');
    crate::text::lemma_index_of_char(part, '=', 25);
    assert(part.take(25) =~= name);
    assert(part.skip(26) =~= id);
}

/// The session cookie round-trips: a `Cookie` header that holds the
/// `Set-Cookie` text of a session id, or just its `name=value` part, yields
/// that id again, when the id holds no `;` and does not end in white space
/// (the generated ids are alphanumeric).
pub proof fn lemma_session_cookie_round_trip(id: Seq<char>)
    requires
        forall|j: int| 0 <= j < id.len() ==> #[trigger] id[j] != ';',
        id.len() > 0 ==> !crate::text::is_white_space(id.last()),
    ensures
        session_id_in_cookie(session_cookie_text(id)) == Some(id),
        session_id_in_cookie(SESSION_COOKIE@ + "="@ + id) == Some(id),
{
    reveal_strlit("workspace_manager_session");
    reveal_strlit("=");
    reveal_strlit("; Path=/; HttpOnly; SameSite=Lax");
    let name = SESSION_COOKIE@;
    let head = name + "="@ + id;
    let full = session_cookie_text(id);
    let k = head.len() as int;
    assert forall|j: int| 0 <= j < k implies head[j] != ';' by {
        if j < 25 {
            assert(head[j] == name[j]);
        } else if j > 25 {
            assert(head[j] == id[j - 26]);
        }
    }
    assert(full.take(k) =~= head);
    assert forall|j: int| 0 <= j < k implies full[j] != ';' by {
        assert(full[j] == head[j]);
    }
    assert(full[k] == ';');
    lemma_cookie_first_part(full, id, k);
    assert(head.take(k) =~= head);
    lemma_cookie_first_part(head, id, k);
}

/// The `Set-Cookie` text of a session id is a valid header value when the
/// id itself is (so `session_cookie_header` can be called with it).
pub proof fn lemma_session_cookie_is_valid_header(id: Seq<char>)
    requires
        valid_header_value_text(id),
    ensures
        valid_header_value_text(session_cookie_text(id)),
{
    reveal_strlit("workspace_manager_session");
    reveal_strlit("=");
    reveal_strlit("; Path=/; HttpOnly; SameSite=Lax");
    let name = SESSION_COOKIE@;
    let full = session_cookie_text(id);
    let k = 26 + id.len();
    assert forall|i: int| 0 <= i < full.len() implies ((#[trigger] full[i] >= ' ' && full[i]
        != '\u{7f}') || full[i] == '\t') by {
        if i < 25 {
            assert(full[i] == name[i]);
        } else if i == 25 {
        } else if i < k {
            assert(full[i] == id[i - 26]);
        } else {
            assert(full[i] == "; Path=/; HttpOnly; SameSite=Lax"@[i - k]);
        }
    }
}


/// A `Cookie` header that holds the value `session_cookie_header(id)` made
/// is read back as the session `id` by `session_id_from_headers`, for an id
/// with no `;` that does not end in white space (the generated ids are
/// alphanumeric).
pub proof fn lemma_cookie_header_read_back(headers: HeaderMap, value: HeaderValue, id: Seq<char>)
    requires
        header_value_text(value) == session_cookie_text(id),
        header_texts(headers).contains_key("cookie"@),
        header_texts(headers)["cookie"@] == header_value_text(value),
        forall|j: int| 0 <= j < id.len() ==> #[trigger] id[j] != ';',
        id.len() > 0 ==> !crate::text::is_white_space(id.last()),
    ensures
        session_id_of_headers(headers) == Some(id),
{
    reveal_strlit("cookie");
    assert(crate::text::ascii_lower("cookie"@) =~= "cookie"@);
    lemma_session_cookie_round_trip(id);
}

} // verus!
