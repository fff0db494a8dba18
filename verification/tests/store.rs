use workspace_manager::sources::UtcTime;
use workspace_manager::store::WorkspaceStore;
use workspace_manager::workspace::{
    CreateWorkspaceRequest, Workspace, WorkspaceQuery, WorkspaceStatus,
};

fn request(repo: &str, branch: Option<&str>) -> CreateWorkspaceRequest {
    CreateWorkspaceRequest {
        repo: repo.to_string(),
        branch: branch.map(|b| b.to_string()),
        clone_url: None,
    }
}

#[test]
fn create_and_get_workspace() {
    let mut store = WorkspaceStore::new();
    let workspace = store.create(
        CreateWorkspaceRequest {
            repo: "root/mycode".to_string(),
            branch: Some("master".to_string()),
            clone_url: None,
        },
        "root".to_string(),
        "session-1".to_string(),
        "http://gitea.local".to_string(),
    );

    let fetched = store.get(&workspace.workspace_id).unwrap();
    assert_eq!(fetched.repo, "root/mycode");
    assert_eq!(fetched.branch, "master");
}

#[test]
fn filters_by_repo_branch_and_user() {
    let mut store = WorkspaceStore::new();
    store.create(
        CreateWorkspaceRequest {
            repo: "root/mycode".to_string(),
            branch: Some("master".to_string()),
            clone_url: None,
        },
        "root".to_string(),
        "session-1".to_string(),
        "http://gitea.local".to_string(),
    );

    let query = WorkspaceQuery {
        repo: Some("root/mycode".to_string()),
        branch: Some("master".to_string()),
        user_id: Some("root".to_string()),
    };

    assert_eq!(store.list(&query).len(), 1);

    let query = WorkspaceQuery {
        repo: Some("root/mycode".to_string()),
        branch: Some("dev".to_string()),
        user_id: Some("root".to_string()),
    };

    assert!(store.list(&query).is_empty());
}

#[test]
fn new_workspace_has_generated_fields() {
    let w = Workspace::new_for_user(
        request("root/app", None),
        "42".to_string(),
        "sess".to_string(),
        "http://g".to_string(),
    );
    assert_eq!(w.branch, "main");
    assert_eq!(w.status, WorkspaceStatus::Creating);
    assert!(w.exists);
    assert_eq!(w.workspace_id.len(), 35);
    assert!(w.workspace_id.starts_with("ws_"));
    assert!(w.workspace_id[3..]
        .chars()
        .all(|c| c.is_ascii_digit() || ('a'..='f').contains(&c)));
    assert_eq!(w.workspace_token.len(), 48);
    assert!(w.workspace_token.chars().all(|c| c.is_ascii_alphanumeric()));
    let password = w.code_server_password.clone().unwrap();
    assert_eq!(password.len(), 18);
    assert!(password.chars().all(|c| c.is_ascii_alphanumeric()));
    assert_eq!(w.created_at, w.updated_at);
    assert!(w.created_at.secs > 1_600_000_000);
    assert_eq!(w.volume_name, format!("{}-data", w.container_name));
    let other = Workspace::new_for_user(
        request("root/app", None),
        "42".to_string(),
        "sess".to_string(),
        "http://g".to_string(),
    );
    assert_ne!(w.workspace_id, other.workspace_id);
    assert_ne!(w.workspace_token, other.workspace_token);
}

#[test]
fn from_parts_builds_names_from_the_id() {
    let w = Workspace::from_parts(
        request("Root/App", Some("dev")),
        "7".to_string(),
        "s".to_string(),
        "http://g".to_string(),
        "abc",
        "tok".to_string(),
        "pw".to_string(),
        UtcTime { secs: 5, nanos: 6 },
    );
    assert_eq!(w.workspace_id, "ws_abc");
    assert_eq!(w.container_name, "gws-7-root-app-ws-abc");
    assert_eq!(w.volume_name, "gws-7-root-app-ws-abc-data");
    assert_eq!(w.branch, "dev");
    assert_eq!(w.code_server_password, Some("pw".to_string()));
    assert_eq!(w.updated_at, UtcTime { secs: 5, nanos: 6 });
}

#[test]
fn mark_keeps_old_url_when_none_given() {
    let mut w = Workspace::from_parts(
        request("r", None),
        "1".to_string(),
        "s".to_string(),
        "g".to_string(),
        "x",
        "t".to_string(),
        "p".to_string(),
        UtcTime { secs: 1, nanos: 0 },
    );
    w.mark_at(WorkspaceStatus::Running, Some("/spaces/ws_x/".to_string()), UtcTime { secs: 2, nanos: 0 });
    assert_eq!(w.url.as_deref(), Some("/spaces/ws_x/"));
    w.mark_at(WorkspaceStatus::Stopped, None, UtcTime { secs: 3, nanos: 0 });
    assert_eq!(w.status, WorkspaceStatus::Stopped);
    assert_eq!(w.url.as_deref(), Some("/spaces/ws_x/"));
    assert_eq!(w.updated_at.secs, 3);
    assert_eq!(w.created_at.secs, 1);
}

#[test]
fn store_updates_and_removes() {
    let mut store = WorkspaceStore::new();
    let w = store.create(request("a/b", None), "1".to_string(), "s".to_string(), "g".to_string());
    let id = w.workspace_id.clone();
    let marked = store.mark(&id, WorkspaceStatus::Error, None).unwrap();
    assert_eq!(marked.status, WorkspaceStatus::Error);
    assert_eq!(store.get(&id).unwrap().status, WorkspaceStatus::Error);
    let ip = store.set_container_ip(&id, Some("10.0.0.2".to_string())).unwrap();
    assert_eq!(ip.container_ip.as_deref(), Some("10.0.0.2"));
    let pw = store.set_code_server_password(&id, None).unwrap();
    assert_eq!(pw.code_server_password, None);
    let by_token = store.get_by_workspace_token(&w.workspace_token).unwrap();
    assert_eq!(by_token.workspace_id, id);
    assert!(store.get_by_workspace_token("nope").is_none());
    assert!(store.mark("missing", WorkspaceStatus::Running, None).is_none());
    let removed = store.remove(&id).unwrap();
    assert_eq!(removed.workspace_id, id);
    assert!(store.get(&id).is_none());
    assert!(store.remove(&id).is_none());
}

#[test]
fn loading_keeps_the_later_duplicate() {
    let a = Workspace::from_parts(request("one", None), "1".to_string(), "s".to_string(), "g".to_string(), "x", "t1".to_string(), "p".to_string(), UtcTime { secs: 1, nanos: 0 });
    let b = Workspace::from_parts(request("two", None), "1".to_string(), "s".to_string(), "g".to_string(), "x", "t2".to_string(), "p".to_string(), UtcTime { secs: 2, nanos: 0 });
    let c = Workspace::from_parts(request("three", None), "1".to_string(), "s".to_string(), "g".to_string(), "y", "t3".to_string(), "p".to_string(), UtcTime { secs: 3, nanos: 0 });
    let store = WorkspaceStore::from_workspaces(vec![a, b, c]);
    assert_eq!(store.get("ws_x").unwrap().repo, "two");
    assert_eq!(store.get("ws_y").unwrap().repo, "three");
    let all = WorkspaceQuery { repo: None, branch: None, user_id: None };
    assert_eq!(store.list(&all).len(), 2);
}

#[test]
fn saved_in_id_order() {
    let make = |id: &str| {
        Workspace::from_parts(
            request("r", None),
            "1".to_string(),
            "s".to_string(),
            "g".to_string(),
            id,
            format!("t-{id}"),
            "p".to_string(),
            UtcTime { secs: 1, nanos: 0 },
        )
    };
    let store = WorkspaceStore::from_workspaces(vec![make("b2"), make("a"), make("b10"), make("ab")]);
    let ids: Vec<String> = store
        .persisted_order()
        .into_iter()
        .map(|w| w.workspace_id)
        .collect();
    assert_eq!(ids, vec!["ws_a", "ws_ab", "ws_b10", "ws_b2"]);
    assert!(WorkspaceStore::new().persisted_order().is_empty());
    let reloaded = WorkspaceStore::from_workspaces(store.persisted_order());
    for id in ["ws_a", "ws_ab", "ws_b10", "ws_b2"] {
        let a = store.get(id).unwrap();
        let b = reloaded.get(id).unwrap();
        assert_eq!((a.workspace_token, a.repo), (b.workspace_token, b.repo));
    }
    assert!(reloaded.get("ws_c").is_none());
}
