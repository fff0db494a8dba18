use axum::http::{HeaderMap, HeaderValue};

use workspace_manager::gitea_origin::infer_gitea_base_url;
use workspace_manager::public_url::{infer_manager_base_url, normalize_base_url};

#[test]
fn configured_url_wins() {
    let headers = HeaderMap::new();
    assert_eq!(
        infer_manager_base_url(&headers, Some("https://space.example.com/")),
        Some("https://space.example.com".to_string())
    );
}

#[test]
fn infers_from_forwarded_headers() {
    let mut headers = HeaderMap::new();
    headers.insert("x-forwarded-proto", HeaderValue::from_static("https"));
    headers.insert(
        "x-forwarded-host",
        HeaderValue::from_static("space.example.com"),
    );

    assert_eq!(
        infer_manager_base_url(&headers, None),
        Some("https://space.example.com".to_string())
    );
}

#[test]
fn infers_from_host() {
    let mut headers = HeaderMap::new();
    headers.insert("host", HeaderValue::from_static("192.168.1.168:20081"));

    assert_eq!(
        infer_manager_base_url(&headers, None),
        Some("http://192.168.1.168:20081".to_string())
    );
}

#[test]
fn invalid_configured_url_falls_back_to_headers() {
    let mut headers = HeaderMap::new();
    headers.insert("host", HeaderValue::from_static("example.org"));
    assert_eq!(
        infer_manager_base_url(&headers, Some("ftp://nope")),
        Some("http://example.org".to_string())
    );
    assert_eq!(infer_manager_base_url(&HeaderMap::new(), Some("nope")), None);
}

#[test]
fn blank_forwarded_host_is_ignored() {
    let mut headers = HeaderMap::new();
    headers.insert("x-forwarded-host", HeaderValue::from_static("   "));
    headers.insert("host", HeaderValue::from_static(" h.example "));
    assert_eq!(
        infer_manager_base_url(&headers, None),
        Some("http://h.example".to_string())
    );
}

#[test]
fn normalize_trims_and_drops_trailing_slashes() {
    assert_eq!(
        normalize_base_url("  https://a.example///  "),
        Some("https://a.example".to_string())
    );
    assert_eq!(normalize_base_url("a.example"), None);
    assert_eq!(normalize_base_url("\u{3000}http://x\u{2003}"), Some("http://x".to_string()));
}

#[test]
fn infers_from_origin_header() {
    let mut headers = HeaderMap::new();
    headers.insert(
        "origin",
        HeaderValue::from_static("http://192.168.1.168:20080"),
    );

    assert_eq!(
        infer_gitea_base_url(&headers).as_deref(),
        Some("http://192.168.1.168:20080")
    );
}

#[test]
fn infers_from_referer_header() {
    let mut headers = HeaderMap::new();
    headers.insert(
        "referer",
        HeaderValue::from_static("http://192.168.1.168:20080/root/mycode"),
    );

    assert_eq!(
        infer_gitea_base_url(&headers).as_deref(),
        Some("http://192.168.1.168:20080")
    );
}

#[test]
fn invalid_origin_falls_back_to_referer() {
    let mut headers = HeaderMap::new();
    headers.insert("origin", HeaderValue::from_static("null"));
    headers.insert(
        "referer",
        HeaderValue::from_static("https://git.example/a/b"),
    );
    assert_eq!(
        infer_gitea_base_url(&headers).as_deref(),
        Some("https://git.example")
    );
    assert_eq!(infer_gitea_base_url(&HeaderMap::new()), None);
}

#[test]
fn referer_without_path_is_used_whole() {
    let mut headers = HeaderMap::new();
    headers.insert("referer", HeaderValue::from_static("https://git.example"));
    assert_eq!(
        infer_gitea_base_url(&headers).as_deref(),
        Some("https://git.example")
    );
}

#[test]
fn header_names_are_case_insensitive() {
    let mut headers = HeaderMap::new();
    headers.insert("Host", HeaderValue::from_static("case.example"));
    assert_eq!(
        workspace_manager::public_url::header_value(&headers, "HOST"),
        Some("case.example".to_string())
    );
}

#[test]
fn non_ascii_header_value_is_not_read() {
    let mut headers = HeaderMap::new();
    headers.insert("host", HeaderValue::from_bytes(b"caf\xc3\xa9").unwrap());
    assert_eq!(workspace_manager::public_url::header_value(&headers, "host"), None);
}
