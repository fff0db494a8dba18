use axum::http::{HeaderMap, HeaderValue};

use workspace_manager::api::{
    clone_url_matches,
    create_workspace_record, finish_workspace_start,
    finish_git_credentials, finish_session_check, session_gate, AuthCheckMode, SessionGate,
    bearer_token, check_git_credential_request, build_login_url, callback_redirect, check_create_request, checked_session,
    credential_for, docker_run_args, effective_code_server_password, git_identity,
    git_request_matches_workspace, login_url, normalize_http_base_url, owned_workspace,
    plan_auth_start, prepare_start, random_workspace_port, safe_return_to,
    session_matches_workspace, sort_newest_first, spaces_url, list_response, scoped_query,
    user_id_text, workspace_public_url, bind_mount_arg, GitCredentialRequest, StartAttempts,
    StartInputs,
};
use workspace_manager::web_url::ParsedUrl;
use workspace_manager::auth::{AuthStore, GiteaUser, PendingOAuth, UserSession};
use workspace_manager::store::WorkspaceStore;
use workspace_manager::config::{AuthConfig, Environment, WorkspaceConfig};
use workspace_manager::oauth::AuthStartQuery;
use workspace_manager::sources::UtcTime;
use workspace_manager::workspace::{CreateWorkspaceRequest, Workspace, WorkspaceQuery, WorkspaceStatus};

fn workspace(user: &str, repo: &str, clone_url: Option<&str>, id: &str, secs: i64) -> Workspace {
    Workspace::from_parts(
        CreateWorkspaceRequest {
            repo: repo.to_string(),
            branch: None,
            clone_url: clone_url.map(|s| s.to_string()),
        },
        user.to_string(),
        "sess".to_string(),
        "http://git.example".to_string(),
        id,
        "token".to_string(),
        "pw".to_string(),
        UtcTime { secs, nanos: 0 },
    )
}

fn user(id: i64) -> GiteaUser {
    GiteaUser { id, login: "alice".to_string(), full_name: None, email: None }
}

fn session(id: i64) -> UserSession {
    UserSession {
        gitea_base_url: "http://git.example".to_string(),
        access_token: "secret-token".to_string(),
        user: user(id),
    }
}

fn config(vars: &[(&str, &str)]) -> WorkspaceConfig {
    WorkspaceConfig::from_env(&Environment {
        vars: vars.iter().map(|(k, v)| (k.to_string(), v.to_string())).collect(),
    })
}

#[test]
fn user_ids_print_in_decimal() {
    assert_eq!(user_id_text(&user(42)), "42");
    assert_eq!(user_id_text(&user(0)), "0");
    assert_eq!(user_id_text(&user(-17)), "-17");
    assert_eq!(user_id_text(&user(i64::MIN)), i64::MIN.to_string());
    assert_eq!(user_id_text(&user(i64::MAX)), i64::MAX.to_string());
}

#[test]
fn ownership_decides_access() {
    let w = workspace("1", "a/b", None, "x", 0);
    assert!(owned_workspace(Some(w), "1").is_ok());
    let e = owned_workspace(Some(workspace("1", "a/b", None, "x", 0)), "2").err().unwrap();
    assert_eq!((e.status, e.message.as_str()), (403, "workspace belongs to another user"));
    let e = owned_workspace(None, "2").err().unwrap();
    assert_eq!((e.status, e.message.as_str()), (404, "workspace not found"));
}

#[test]
fn list_is_newest_first() {
    let list = vec![
        workspace("1", "a", None, "a", 5),
        workspace("1", "b", None, "b", 9),
        workspace("1", "c", None, "c", 1),
    ];
    let sorted = sort_newest_first(list);
    let ids: Vec<_> = sorted.iter().map(|w| w.workspace_id.clone()).collect();
    assert_eq!(ids, vec!["ws_b", "ws_a", "ws_c"]);
    let response = list_response(sorted);
    assert!(response.exists);
    assert_eq!(response.count, 3);
    let empty = list_response(vec![]);
    assert!(!empty.exists && empty.count == 0);
}

#[test]
fn sorting_keeps_the_order_of_equal_times() {
    let list = vec![
        workspace("1", "a", None, "p", 5),
        workspace("1", "b", None, "q", 7),
        workspace("1", "c", None, "r", 5),
        workspace("1", "d", None, "s", 7),
    ];
    let ids: Vec<_> = sort_newest_first(list).into_iter().map(|w| w.workspace_id).collect();
    assert_eq!(ids, vec!["ws_q", "ws_s", "ws_p", "ws_r"]);
    assert!(sort_newest_first(vec![]).is_empty());
}

#[test]
fn scoped_query_forces_the_user() {
    let q = scoped_query(
        WorkspaceQuery { repo: Some("r".to_string()), branch: None, user_id: Some("9".to_string()) },
        "1".to_string(),
    );
    assert_eq!(q.user_id.as_deref(), Some("1"));
    assert_eq!(q.repo.as_deref(), Some("r"));
}

#[test]
fn running_workspaces_get_a_spaces_url() {
    assert_eq!(spaces_url(WorkspaceStatus::Running, "ws_1").as_deref(), Some("/spaces/ws_1/"));
    assert_eq!(spaces_url(WorkspaceStatus::Stopped, "ws_1"), None);
}

#[test]
fn create_requires_a_repo() {
    assert!(check_create_request("root/x").is_ok());
    let e = check_create_request("  ").err().unwrap();
    assert_eq!((e.status, e.message.as_str()), (400, "repo is required"));
}

#[test]
fn code_server_password_policy() {
    let generated = Some("gen".to_string());
    assert_eq!(effective_code_server_password(&config(&[("CODE_SERVER_AUTH", "none")]), generated.clone()), None);
    assert_eq!(
        effective_code_server_password(&config(&[("WORKSPACE_CODE_SERVER_PASSWORD", "fixed")]), generated.clone()).as_deref(),
        Some("fixed")
    );
    assert_eq!(effective_code_server_password(&config(&[]), generated).as_deref(), Some("gen"));
}

#[test]
fn git_identity_falls_back_to_login() {
    let mut u = user(1);
    assert_eq!(git_identity(&u), ("alice".to_string(), "alice.noreply.local".to_string()));
    u.full_name = Some("  ".to_string());
    u.email = Some("a@example.com".to_string());
    assert_eq!(git_identity(&u), ("alice".to_string(), "a@example.com".to_string()));
    u.full_name = Some("Alice A".to_string());
    assert_eq!(git_identity(&u).0, "Alice A");
}

#[test]
fn start_needs_manager_url_and_clone_url() {
    let mut headers = HeaderMap::new();
    let w = workspace("1", "a/b", Some("http://git.example/a/b.git"), "x", 0);
    assert_eq!(
        prepare_start(None, &headers, &w, &session(1)).err().as_deref(),
        Some("cannot infer manager public url")
    );
    headers.insert("host", HeaderValue::from_static("m.example:20081"));
    let no_clone = workspace("1", "a/b", None, "x", 0);
    assert_eq!(
        prepare_start(None, &headers, &no_clone, &session(1)).err().as_deref(),
        Some("clone_url is required")
    );
    let inputs = prepare_start(None, &headers, &w, &session(1)).ok().unwrap();
    assert_eq!(inputs.manager_url, "http://m.example:20081");
    assert_eq!(inputs.clone_url, "http://git.example/a/b.git");
}

#[test]
fn docker_args_are_complete() {
    let w = workspace("1", "a/b", None, "x", 0);
    let inputs = StartInputs {
        manager_url: "http://m".to_string(),
        clone_url: "http://c".to_string(),
        git_user_name: "n".to_string(),
        git_user_email: "e".to_string(),
    };
    let mounts = vec!["-v".to_string(), bind_mount_arg("/h", "/c")];
    let args = docker_run_args(&config(&[]), &w, 30001, &inputs, &mounts);
    let expected: Vec<String> = [
        "run", "-d", "--name", w.container_name.as_str(), "-p", "0.0.0.0:30001:8080",
        "-e", "WORKSPACE_TOKEN=token", "-e", "WORKSPACE_MANAGER_URL=http://m",
        "-e", "CLONE_URL=http://c", "-e", "GIT_USER_NAME=n", "-e", "GIT_USER_EMAIL=e",
        "-e", "PASSWORD=pw", "-v", "/h:/c", "gitea-code-server:latest",
    ]
    .iter()
    .map(|s| s.to_string())
    .collect();
    assert_eq!(args, expected);
    let args = docker_run_args(&config(&[("CODE_SERVER_AUTH", "none")]), &w, 1, &inputs, &vec![]);
    assert!(args.contains(&"CODE_SERVER_AUTH=none".to_string()));
    assert!(!args.iter().any(|a| a.starts_with("PASSWORD=")));
    assert!(!args.iter().any(|a| a.starts_with("GITHUB_")));
    let github = config(&[
        ("WORKSPACE_GITHUB_AUTHENTICATION_MODE", "env-token"),
        ("WORKSPACE_GITHUB_TOKEN", "ghp_x"),
    ]);
    let args = docker_run_args(&github, &w, 1, &inputs, &vec!["-v".to_string(), "/h:/c".to_string()]);
    let tail: Vec<&str> = args[args.len() - 7..].iter().map(|s| s.as_str()).collect();
    assert_eq!(
        tail,
        vec![
            "-e",
            "GITHUB_AUTHENTICATION_MODE=env-token",
            "-e",
            "GITHUB_TOKEN=ghp_x",
            "-v",
            "/h:/c",
            "gitea-code-server:latest"
        ]
    );
}

#[test]
fn ports_stay_in_range_and_attempts_are_bounded() {
    assert_eq!(random_workspace_port(30000, 30000), 30000);
    for _ in 0..50 {
        let p = random_workspace_port(30000, 30003);
        assert!((30000..=30003).contains(&p));
    }
    let mut attempts = StartAttempts::new();
    let mut tries = 0;
    while attempts.next_port(1, 2).is_some() {
        tries += 1;
        attempts.record_failure("  port busy \n");
    }
    assert_eq!(tries, 20);
    assert_eq!(attempts.failure_message(), "port busy");
    assert_eq!(StartAttempts::new().failure_message(), "failed to allocate workspace port");
}

#[test]
fn public_url_sets_the_port() {
    assert_eq!(
        workspace_public_url("http://m.example:20081/x?y#z", 30001).unwrap(),
        "http://m.example:30001/"
    );
    assert_eq!(workspace_public_url("http://m.example", 80).unwrap(), "http://m.example/");
    assert_eq!(workspace_public_url("nope", 1).unwrap_err(), "invalid manager public url");
    assert_eq!(
        workspace_public_url("mailto:a@b", 1).unwrap_err(),
        "failed to set workspace port"
    );
}

#[test]
fn return_targets_must_be_local_or_same_origin() {
    let g = "http://git.example:3000";
    assert_eq!(safe_return_to(g, "/root/repo").as_deref(), Some("/root/repo"));
    assert_eq!(safe_return_to(g, "//evil.example/x"), None);
    assert_eq!(
        safe_return_to(g, "http://GIT.example:3000/a b").as_deref(),
        Some("http://git.example:3000/a%20b")
    );
    assert_eq!(safe_return_to(g, "https://git.example:3000/a"), None);
    assert_eq!(safe_return_to(g, "http://evil.example:3000/a"), None);
    assert_eq!(safe_return_to("https://git.example", "https://git.example:443/x").as_deref(), Some("https://git.example/x"));
    assert_eq!(safe_return_to(g, "not a url"), None);
}

#[test]
fn normalize_http_base() {
    assert_eq!(normalize_http_base_url(" https://x/ ").as_deref(), Some("https://x"));
    assert_eq!(normalize_http_base_url("x"), None);
}

fn auth_config() -> AuthConfig {
    AuthConfig { public_url: None, client_id: "id".to_string(), client_secret: "s".to_string() }
}

#[test]
fn auth_start_plan() {
    let query = AuthStartQuery { return_to: Some("/root/x".to_string()), gitea_base_url: None, popup: None };
    let headers = HeaderMap::new();
    let e = plan_auth_start(None, &headers, &query).err().unwrap();
    assert_eq!((e.status, e.message.as_str()), (503, "oauth is not configured"));
    let e = plan_auth_start(Some(&auth_config()), &headers, &query).err().unwrap();
    assert_eq!((e.status, e.message.as_str()), (400, "cannot infer gitea base url"));
    let mut headers = HeaderMap::new();
    headers.insert("origin", HeaderValue::from_static("http://git.example"));
    let e = plan_auth_start(Some(&auth_config()), &headers, &query).err().unwrap();
    assert_eq!((e.status, e.message.as_str()), (400, "cannot infer manager public url"));
    headers.insert("host", HeaderValue::from_static("m.example"));
    let plan = plan_auth_start(Some(&auth_config()), &headers, &query).ok().unwrap();
    assert_eq!(plan.gitea_base_url, "http://git.example");
    assert_eq!(plan.redirect_uri, "http://m.example/auth/gitea/callback");
    assert_eq!(plan.return_to.as_deref(), Some("/root/x"));
    assert!(!plan.popup);
    let query = AuthStartQuery {
        return_to: Some("https://evil.example/".to_string()),
        gitea_base_url: Some("https://other.example/".to_string()),
        popup: Some(true),
    };
    let plan = plan_auth_start(Some(&auth_config()), &headers, &query).ok().unwrap();
    assert_eq!(plan.gitea_base_url, "https://other.example");
    assert_eq!(plan.return_to, None);
    assert!(plan.popup);
}

#[test]
fn callback_goes_back_or_closes_the_popup() {
    let mut p = PendingOAuth {
        gitea_base_url: "http://g".to_string(),
        redirect_uri: "r".to_string(),
        return_to: None,
        popup: true,
    };
    assert_eq!(callback_redirect(&p), None);
    p.popup = false;
    assert_eq!(callback_redirect(&p).as_deref(), Some("http://g"));
    p.return_to = Some("/x".to_string());
    assert_eq!(callback_redirect(&p).as_deref(), Some("/x"));
}

#[test]
fn login_url_carries_return_page_and_gitea() {
    let mut headers = HeaderMap::new();
    headers.insert("host", HeaderValue::from_static("m.example"));
    headers.insert("referer", HeaderValue::from_static("http://git.example/root/x"));
    assert_eq!(
        build_login_url(None, &headers).as_deref(),
        Some("http://m.example/auth/gitea/start?return_to=http%3A%2F%2Fgit.example%2Froot%2Fx&gitea_base_url=http%3A%2F%2Fgit.example")
    );
    assert_eq!(login_url(None, &HeaderMap::new()), "/auth/gitea/start");
}

#[test]
fn bearer_tokens() {
    let mut headers = HeaderMap::new();
    headers.insert("authorization", HeaderValue::from_static("Bearer  abc "));
    assert_eq!(bearer_token(&headers).as_deref(), Some("abc"));
    headers.insert("authorization", HeaderValue::from_static("Bearer    "));
    assert_eq!(bearer_token(&headers), None);
    headers.insert("authorization", HeaderValue::from_static("Basic abc"));
    assert_eq!(bearer_token(&headers), None);
}

fn cred(protocol: &str, host: &str, path: &str) -> GitCredentialRequest {
    GitCredentialRequest { protocol: protocol.to_string(), host: host.to_string(), path: path.to_string() }
}

#[test]
fn git_requests_are_scoped_to_the_workspace() {
    let w = workspace("1", "root/app", Some("http://git.example:3000/root/app.git"), "x", 0);
    assert!(git_request_matches_workspace(&cred("http", "git.example:3000", "/root/app.git"), &w));
    assert!(git_request_matches_workspace(&cred("http", "git.example:3000", "root/app"), &w));
    assert!(!git_request_matches_workspace(&cred("https", "git.example:3000", "root/app"), &w));
    assert!(!git_request_matches_workspace(&cred("http", "git.example", "root/app"), &w));
    assert!(!git_request_matches_workspace(&cred("http", "git.example:3000", "root/other"), &w));
    assert!(!git_request_matches_workspace(&cred("ssh", "git.example:3000", "root/app"), &w));
    let no_clone = workspace("1", "root/app.git", None, "x", 0);
    assert!(git_request_matches_workspace(&cred("https", "anything", "root/app"), &no_clone));
    let bad_clone = workspace("1", "root/app", Some("not a url"), "x", 0);
    assert!(!git_request_matches_workspace(&cred("http", "h", "root/app"), &bad_clone));
    let default_port = workspace("1", "root/app", Some("https://git.example:443/root/app"), "x", 0);
    assert!(git_request_matches_workspace(&cred("https", "git.example", "root/app"), &default_port));
}

#[test]
fn credentials_need_the_same_user() {
    let w = workspace("1", "a", None, "x", 0);
    assert!(session_matches_workspace(&session(1), &w));
    assert!(!session_matches_workspace(&session(2), &w));
    let c = credential_for(&session(1), Some(user(1))).unwrap();
    assert_eq!((c.username.as_str(), c.password.as_str()), ("alice", "secret-token"));
    assert!(credential_for(&session(1), Some(user(2))).is_none());
    assert!(credential_for(&session(1), None).is_none());
}

#[test]
fn token_check_keeps_only_the_same_user() {
    let mut fresh = user(1);
    fresh.login = "renamed".to_string();
    let s = checked_session(session(1), Some(fresh)).unwrap();
    assert_eq!(s.user.login, "renamed");
    assert!(checked_session(session(1), Some(user(3))).is_none());
    assert!(checked_session(session(1), None).is_none());
}

#[test]
fn credential_requests_are_checked_in_order() {
    let w = workspace("1", "root/app", None, "x", 0);
    let store = WorkspaceStore::from_workspaces(vec![w]);
    let with_owner = AuthStore::from_sessions(vec![("sess".to_string(), session(1))]);
    let with_other = AuthStore::from_sessions(vec![("sess".to_string(), session(2))]);
    let nobody = AuthStore::new();
    let req = cred("https", "git.example", "root/app");
    let mut headers = HeaderMap::new();
    let refusal = |r: Result<_, workspace_manager::api::ApiError>| {
        let e = r.err().unwrap();
        (e.status, e.message)
    };
    assert_eq!(
        refusal(check_git_credential_request(&headers, &store, &with_owner, &req)),
        (401, "workspace token is required".to_string())
    );
    headers.insert("authorization", HeaderValue::from_static("Bearer nope"));
    assert_eq!(
        refusal(check_git_credential_request(&headers, &store, &with_owner, &req)),
        (401, "invalid workspace token".to_string())
    );
    headers.insert("authorization", HeaderValue::from_static("Bearer token"));
    assert_eq!(
        refusal(check_git_credential_request(&headers, &store, &with_owner, &cred("https", "h", "root/other"))),
        (403, "git credential request is outside this workspace".to_string())
    );
    assert_eq!(
        refusal(check_git_credential_request(&headers, &store, &nobody, &req)),
        (401, "workspace owner is not authenticated".to_string())
    );
    assert_eq!(
        refusal(check_git_credential_request(&headers, &store, &with_other, &req)),
        (401, "workspace session does not match owner".to_string())
    );
    let grant = check_git_credential_request(&headers, &store, &with_owner, &req).ok().unwrap();
    assert_eq!(grant.workspace.workspace_id, "ws_x");
    assert_eq!(grant.session.access_token, "secret-token");
}

#[test]
fn listing_shows_only_own_workspaces() {
    let store = WorkspaceStore::from_workspaces(vec![
        workspace("1", "r", None, "a", 1),
        workspace("2", "r", None, "b", 2),
        workspace("1", "s", None, "c", 3),
    ]);
    let asked = WorkspaceQuery { repo: None, branch: None, user_id: Some("2".to_string()) };
    let listed = store.list(&scoped_query(asked, "1".to_string()));
    let ids: Vec<_> = listed.iter().map(|w| w.workspace_id.as_str()).collect();
    assert_eq!(ids, vec!["ws_a", "ws_c"]);
    assert!(listed.iter().all(|w| w.user_id == "1"));
}

fn cookie_headers(value: &str) -> HeaderMap {
    let mut headers = HeaderMap::new();
    headers.insert("cookie", HeaderValue::from_str(value).unwrap());
    headers
}

#[test]
fn session_gate_decides_when_gitea_is_asked() {
    let mut auth = AuthStore::from_sessions(vec![("sid".to_string(), session(1))]);
    let with_cookie = cookie_headers("a=b; workspace_manager_session=sid");
    assert!(matches!(
        session_gate(&HeaderMap::new(), &auth, AuthCheckMode::Cached, 0),
        SessionGate::AuthRequired
    ));
    assert!(matches!(
        session_gate(&cookie_headers("workspace_manager_session=nope"), &auth, AuthCheckMode::Fresh, 0),
        SessionGate::AuthRequired
    ));
    match session_gate(&with_cookie, &auth, AuthCheckMode::Cached, 1_000) {
        SessionGate::Confirm { session_id, session } => {
            assert_eq!(session_id, "sid");
            assert_eq!(session.access_token, "secret-token");
        }
        _ => panic!("an unchecked session must be confirmed"),
    }
    let mut renamed = user(1);
    renamed.login = "alice2".to_string();
    let kept = finish_session_check(&mut auth, "sid", session(1), Some(renamed), 1_000).unwrap();
    assert_eq!(kept.user.login, "alice2");
    match session_gate(&with_cookie, &auth, AuthCheckMode::Cached, 60_999) {
        SessionGate::Ready(s) => assert_eq!(s.user.id, 1),
        _ => panic!("a fresh check needs no new one"),
    }
    assert!(matches!(
        session_gate(&with_cookie, &auth, AuthCheckMode::Fresh, 1_001),
        SessionGate::Confirm { .. }
    ));
    assert!(matches!(
        session_gate(&with_cookie, &auth, AuthCheckMode::Cached, 61_000),
        SessionGate::Confirm { .. }
    ));
    assert!(finish_session_check(&mut auth, "sid", session(1), Some(user(2)), 61_000).is_none());
    assert!(auth.get_session("sid").is_none());
    assert!(matches!(
        session_gate(&with_cookie, &auth, AuthCheckMode::Cached, 61_001),
        SessionGate::AuthRequired
    ));
}

#[test]
fn failed_credential_confirmation_forgets_the_owner_session() {
    let store = WorkspaceStore::from_workspaces(vec![workspace("1", "root/app", None, "x", 0)]);
    let mut auth = AuthStore::from_sessions(vec![("sess".to_string(), session(1))]);
    let mut headers = HeaderMap::new();
    headers.insert("authorization", HeaderValue::from_static("Bearer token"));
    let req = cred("https", "git.example", "root/app");
    let grant = check_git_credential_request(&headers, &store, &auth, &req).ok().unwrap();
    let c = finish_git_credentials(&mut auth, &grant, Some(user(1))).unwrap();
    assert_eq!((c.username.as_str(), c.password.as_str()), ("alice", "secret-token"));
    assert!(auth.get_session("sess").is_some());
    assert!(finish_git_credentials(&mut auth, &grant, None).is_none());
    assert!(auth.get_session("sess").is_none());
    let e = check_git_credential_request(&headers, &store, &auth, &req).err().unwrap();
    assert_eq!((e.status, e.message.as_str()), (401, "workspace owner is not authenticated"));
}

fn create_request(repo: &str) -> CreateWorkspaceRequest {
    CreateWorkspaceRequest { repo: repo.to_string(), branch: None, clone_url: Some("http://c/r.git".to_string()) }
}

#[test]
fn created_workspaces_get_the_configured_password() {
    let mut store = WorkspaceStore::new();
    let generated = create_workspace_record(
        &mut store,
        &config(&[]),
        create_request("root/app"),
        "1".to_string(),
        "sess".to_string(),
        "http://git.example".to_string(),
    );
    assert_eq!(generated.workspace_token.len(), 48);
    assert!(generated.workspace_token.chars().all(|c| c.is_ascii_alphanumeric()));
    let p = generated.code_server_password.clone().unwrap();
    assert_eq!(p.len(), 18);
    assert!(p.chars().all(|c| c.is_ascii_alphanumeric()));
    assert_eq!(store.get(&generated.workspace_id).unwrap().code_server_password, Some(p));
    let fixed = create_workspace_record(
        &mut store,
        &config(&[("WORKSPACE_CODE_SERVER_PASSWORD", "pw1")]),
        create_request("root/app"),
        "1".to_string(),
        "sess".to_string(),
        "http://git.example".to_string(),
    );
    assert_eq!(fixed.code_server_password.as_deref(), Some("pw1"));
    let open = create_workspace_record(
        &mut store,
        &config(&[("CODE_SERVER_AUTH", "none"), ("WORKSPACE_CODE_SERVER_PASSWORD", "pw1")]),
        create_request("root/app"),
        "1".to_string(),
        "sess".to_string(),
        "http://git.example".to_string(),
    );
    assert_eq!(open.code_server_password, None);
    assert_eq!(store.get(&open.workspace_id).unwrap().code_server_password, None);
    assert_eq!(open.status, WorkspaceStatus::Creating);
    let all = WorkspaceQuery { repo: None, branch: None, user_id: None };
    assert_eq!(store.list(&all).len(), 3);
}

#[test]
fn a_start_is_recorded_as_running_or_error() {
    let mut store = WorkspaceStore::new();
    let w = create_workspace_record(
        &mut store,
        &config(&[]),
        create_request("root/app"),
        "1".to_string(),
        "sess".to_string(),
        "http://git.example".to_string(),
    );
    let id = w.workspace_id.clone();
    let running = finish_workspace_start(&mut store, w, Ok("http://m:30001/".to_string())).ok().unwrap();
    assert_eq!(running.status, WorkspaceStatus::Running);
    assert_eq!(running.url.as_deref(), Some("http://m:30001/"));
    assert_eq!(store.get(&id).unwrap().status, WorkspaceStatus::Running);
    let again = store.get(&id).unwrap();
    let e = finish_workspace_start(&mut store, again, Err("boom".to_string())).err().unwrap();
    assert_eq!((e.status, e.message.as_str()), (500, "boom"));
    let failed = store.get(&id).unwrap();
    assert_eq!(failed.status, WorkspaceStatus::Error);
    assert_eq!(failed.url.as_deref(), Some("http://m:30001/"));
}

#[test]
fn clone_url_match_reads_scheme_host_port_and_path() {
    let parsed = |scheme: &str, host: Option<&str>, port: Option<u16>, path: &str| ParsedUrl {
        text: String::new(),
        scheme: scheme.to_string(),
        host: host.map(|h| h.to_string()),
        port,
        known_port: port,
        path: path.to_string(),
    };
    let req = cred("http", "git.example:3000", "root/app");
    let u = parsed("http", Some("git.example"), Some(3000), "/root/app.git");
    assert!(clone_url_matches(&req, "root/app", &u));
    assert!(!clone_url_matches(&req, "root/other", &u));
    assert!(!clone_url_matches(&req, "root/app", &parsed("https", Some("git.example"), Some(3000), "/root/app")));
    assert!(!clone_url_matches(&req, "root/app", &parsed("http", Some("git.example"), None, "/root/app")));
    let no_port = cred("https", "git.example", "root/app");
    assert!(clone_url_matches(&no_port, "root/app", &parsed("https", Some("git.example"), None, "root/app")));
    let no_host = cred("file", "", "r");
    assert!(clone_url_matches(&no_host, "r", &parsed("file", None, None, "/r")));
}
