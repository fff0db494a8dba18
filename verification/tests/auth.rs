use workspace_manager::auth::{
    new_session_id, session_file_name, session_id_from_file_name, AuthStore, GiteaUser, PendingOAuth, UserSession,
};

fn session(login: &str) -> UserSession {
    UserSession {
        gitea_base_url: "http://gitea.local".to_string(),
        access_token: "token".to_string(),
        user: GiteaUser {
            id: 1,
            login: login.to_string(),
            full_name: None,
            email: None,
        },
    }
}

#[test]
fn oauth_state_is_single_use() {
    let mut store = AuthStore::new();
    let state = store.create_oauth_state(PendingOAuth {
        gitea_base_url: "http://gitea.local".to_string(),
        redirect_uri: "http://manager.local/auth/gitea/callback".to_string(),
        return_to: Some("/root/repo".to_string()),
        popup: false,
    });

    assert!(store.take_oauth_state(&state).is_some());
    assert!(store.take_oauth_state(&state).is_none());
}

#[test]
fn session_is_persisted_and_reloaded() {
    let mut store = AuthStore::new();
    let session_id = store.create_session(session("alice"));
    let saved = store.get_session(&session_id).unwrap();

    // The session is saved as `{data}/sessions/{id}.json` and read back by
    // the id that file name gives.
    let file = format!("/data/sessions/{}", session_file_name(&session_id));
    let read_back_id = session_id_from_file_name(&file).unwrap();
    assert_eq!(read_back_id, session_id);
    let reloaded = AuthStore::from_sessions(vec![(read_back_id, saved)]);
    let session = reloaded.get_session(&session_id).unwrap();
    assert_eq!(session.user.login, "alice");
    assert_eq!(session.access_token, "token");
}

#[test]
fn generated_ids_are_alphanumeric() {
    let mut store = AuthStore::new();
    let id = store.create_session(session("bob"));
    assert_eq!(id.len(), 48);
    assert!(id.chars().all(|c| c.is_ascii_alphanumeric()));
    let state = store.create_oauth_state(PendingOAuth {
        gitea_base_url: "g".to_string(),
        redirect_uri: "r".to_string(),
        return_to: None,
        popup: true,
    });
    assert_eq!(state.len(), 32);
    assert!(state.chars().all(|c| c.is_ascii_alphanumeric()));
}

#[test]
fn removed_session_is_gone_with_its_check() {
    let mut store = AuthStore::new();
    let id = store.create_session(session("carol"));
    store.mark_token_checked(&id, 1_000);
    assert!(store.token_check_is_fresh(&id, 1_500, 60_000));
    store.remove_session(&id);
    assert!(store.get_session(&id).is_none());
    assert!(!store.token_check_is_fresh(&id, 1_500, 60_000));
}

#[test]
fn token_check_expires_after_ttl() {
    let mut store = AuthStore::new();
    store.mark_token_checked("s", 10_000);
    assert!(store.token_check_is_fresh("s", 69_999, 60_000));
    assert!(!store.token_check_is_fresh("s", 70_000, 60_000));
    assert!(store.token_check_is_fresh("s", 5_000, 60_000));
    assert!(!store.token_check_is_fresh("other", 10_000, 60_000));
}

#[test]
fn later_session_wins_on_reload() {
    let store = AuthStore::from_sessions(vec![
        ("id".to_string(), session("first")),
        ("id".to_string(), session("second")),
    ]);
    assert_eq!(store.get_session("id").unwrap().user.login, "second");
}

#[test]
fn session_files_are_named_by_id() {
    assert_eq!(session_file_name("abc123"), "abc123.json");
    assert_eq!(session_id_from_file_name("abc123.json"), Some("abc123".to_string()));
    assert_eq!(
        session_id_from_file_name("/data/sessions/abc123.json"),
        Some("abc123".to_string())
    );
    assert_eq!(session_id_from_file_name("abc123.txt"), None);
    assert_eq!(session_id_from_file_name("abc123"), None);
    assert_eq!(session_id_from_file_name(".json"), None);
    assert_eq!(session_id_from_file_name("a.b.json"), Some("a.b".to_string()));
    let id = "Zx9QpL2m";
    assert_eq!(session_id_from_file_name(&session_file_name(id)), Some(id.to_string()));
}

#[test]
fn a_session_written_under_a_fresh_id_is_found_there() {
    let id = new_session_id();
    assert_eq!(id.len(), 48);
    assert!(id.chars().all(|c| c.is_ascii_alphanumeric()));
    let mut store = AuthStore::new();
    store.insert_session(&id, session("carol"));
    assert_eq!(store.get_session(&id).unwrap().user.login, "carol");
    store.insert_session(&id, session("dave"));
    assert_eq!(store.get_session(&id).unwrap().user.login, "dave");
}
