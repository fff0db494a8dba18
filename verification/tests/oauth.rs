use axum::http::{HeaderMap, HeaderValue};

use workspace_manager::config::AuthConfig;
use workspace_manager::oauth::{
    build_authorize_url, session_cookie_header, session_cookie_value, session_id_from_headers,
    token_endpoint, user_endpoint, OAuthUrlError, SESSION_COOKIE,
};

fn auth() -> AuthConfig {
    AuthConfig {
        public_url: None,
        client_id: "client 1".to_string(),
        client_secret: "secret".to_string(),
    }
}

#[test]
fn authorize_url_has_the_four_parameters() {
    let url = build_authorize_url(
        "http://gitea.local/",
        &auth(),
        "http://manager.local/auth/gitea/callback",
        "st&ate",
    )
    .unwrap();
    assert_eq!(
        url,
        "http://gitea.local/login/oauth/authorize?client_id=client+1&redirect_uri=http%3A%2F%2Fmanager.local%2Fauth%2Fgitea%2Fcallback&response_type=code&state=st%26ate"
    );
}

#[test]
fn authorize_url_refuses_a_relative_base() {
    assert_eq!(
        build_authorize_url("gitea.local", &auth(), "x", "y"),
        Err(OAuthUrlError::InvalidBaseUrl)
    );
}

#[test]
fn endpoints_drop_trailing_slashes() {
    assert_eq!(
        token_endpoint("http://g.local//"),
        "http://g.local/login/oauth/access_token"
    );
    assert_eq!(user_endpoint("http://g.local"), "http://g.local/api/v1/user");
}

#[test]
fn session_cookie_round_trips() {
    let text = session_cookie_value("abc123");
    assert_eq!(
        text,
        "workspace_manager_session=abc123; Path=/; HttpOnly; SameSite=Lax"
    );
    let header = session_cookie_header("abc123");
    assert_eq!(header.to_str().unwrap(), text);

    let mut headers = HeaderMap::new();
    headers.insert("cookie", HeaderValue::from_str(&text).unwrap());
    assert_eq!(session_id_from_headers(&headers), Some("abc123".to_string()));

    let mut headers = HeaderMap::new();
    headers.insert("cookie", session_cookie_header("abc123"));
    assert_eq!(session_id_from_headers(&headers), Some("abc123".to_string()));
}

#[test]
fn session_id_is_found_among_other_cookies() {
    let mut headers = HeaderMap::new();
    headers.insert(
        "cookie",
        HeaderValue::from_static("theme=dark; broken ;  workspace_manager_session=s1 ; other=x"),
    );
    assert_eq!(session_id_from_headers(&headers), Some("s1".to_string()));
    let mut headers = HeaderMap::new();
    headers.insert("cookie", HeaderValue::from_static("theme=dark"));
    assert_eq!(session_id_from_headers(&headers), None);
    assert_eq!(session_id_from_headers(&HeaderMap::new()), None);
    assert_eq!(SESSION_COOKIE, "workspace_manager_session");
}
