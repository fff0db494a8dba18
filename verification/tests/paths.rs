use workspace_manager::config::WorkspaceSharedData;
use workspace_manager::paths::{
    file_name_text,
    join_path, plan_shared_mounts, shared_code_server_data_dir, shared_file_container_path,
    shared_file_storage_path, shared_path_is_probably_file, validate_shared_file_path, MountStep,
};

#[test]
fn join_follows_pathbuf() {
    for (a, b) in [("data", "x"), ("data/", "x"), ("", "x"), ("data", "/abs"), ("a", "")] {
        let expected = std::path::Path::new(a).join(b);
        assert_eq!(join_path(a, b), expected.to_str().unwrap());
    }
}

#[test]
fn storage_paths() {
    assert_eq!(shared_file_storage_path("User/a.json"), Ok("User/a.json".to_string()));
    assert_eq!(
        shared_file_storage_path("/home/coder/./x//y"),
        Ok("__absolute/home/coder/x/y".to_string())
    );
    assert_eq!(
        shared_file_storage_path("/"),
        Err("shared file path must not be root".to_string())
    );
    assert_eq!(
        shared_file_storage_path("/a/../b"),
        Err("shared file path contains unsupported component".to_string())
    );
}

#[test]
fn container_paths() {
    assert_eq!(
        shared_file_container_path("User/settings.json"),
        "/home/coder/.local/share/code-server/User/settings.json"
    );
    assert_eq!(shared_file_container_path("/etc/x"), "/etc/x");
}

#[test]
fn file_guess_follows_extension() {
    for p in ["User/a.json", "User/dir", ".bashrc", "a/.b.c", "x.", "a/..", ".", "", "/", "a/b.c/"] {
        let expected = std::path::Path::new(p).extension().is_some();
        assert_eq!(shared_path_is_probably_file(p), expected, "{p}");
    }
}

#[test]
fn parent_components_are_refused() {
    assert!(validate_shared_file_path("a/../b").is_err());
    assert!(validate_shared_file_path("a/..b").is_ok());
    assert_eq!(
        validate_shared_file_path("..").unwrap_err(),
        "shared file path must not contain .."
    );
}

#[test]
fn shared_dirs() {
    assert_eq!(shared_code_server_data_dir("d", WorkspaceSharedData::Unshared, "u"), None);
    assert_eq!(
        shared_code_server_data_dir("d", WorkspaceSharedData::Global, "u"),
        Some("d/shared-code-server/global".to_string())
    );
    assert_eq!(
        shared_code_server_data_dir("d", WorkspaceSharedData::User, "Bob Smith"),
        Some("d/shared-code-server/users/bob-smith".to_string())
    );
}

#[test]
fn mount_plan_for_whole_directory_and_excludes() {
    let plan = plan_shared_mounts(
        "/data",
        WorkspaceSharedData::Global,
        &vec![],
        &vec!["User/workspaceStorage".to_string()],
        "ws_1",
        "alice",
    );
    assert!(plan.error.is_none());
    assert_eq!(plan.steps.len(), 2);
    match &plan.steps[0] {
        MountStep::SharedRoot { host_dir } => assert_eq!(host_dir, "/data/shared-code-server/global"),
        _ => panic!("expected the shared root"),
    }
    match &plan.steps[1] {
        MountStep::PrivateDir { host_dir, container_path } => {
            assert_eq!(host_dir, "/data/workspaces/ws_1/private-code-server/User/workspaceStorage");
            assert_eq!(container_path, "/home/coder/.local/share/code-server/User/workspaceStorage");
        }
        _ => panic!("expected a private dir"),
    }
}

#[test]
fn mount_plan_for_files_stops_at_first_error() {
    let plan = plan_shared_mounts(
        "/data",
        WorkspaceSharedData::User,
        &vec![
            "User/chat.json".to_string(),
            "/home/coder/abs".to_string(),
            "../bad".to_string(),
            "User/never".to_string(),
        ],
        &vec![],
        "ws_1",
        "Alice",
    );
    assert_eq!(plan.error.as_deref(), Some("shared file path must not contain .."));
    assert_eq!(plan.steps.len(), 2);
    match &plan.steps[0] {
        MountStep::SharedPath { host_path, container_path, is_file } => {
            assert_eq!(host_path, "/data/shared-code-server/users/alice/User/chat.json");
            assert_eq!(container_path, "/home/coder/.local/share/code-server/User/chat.json");
            assert!(*is_file);
        }
        _ => panic!("expected a shared path"),
    }
    match &plan.steps[1] {
        MountStep::SharedPath { host_path, container_path, is_file } => {
            assert_eq!(host_path, "/data/shared-code-server/users/alice/__absolute/home/coder/abs");
            assert_eq!(container_path, "/home/coder/abs");
            assert!(!*is_file);
        }
        _ => panic!("expected a shared path"),
    }
    let none = plan_shared_mounts("/d", WorkspaceSharedData::Unshared, &vec!["../x".to_string()], &vec![], "w", "u");
    assert!(none.steps.is_empty() && none.error.is_none());
}

#[test]
fn file_name_follows_path() {
    for p in ["a/b.txt", "a/b/", "a/b/.", "", "/", "..", "a/..", "x", "./y", "a//b"] {
        let expected = std::path::Path::new(p)
            .file_name()
            .map(|n| n.to_str().unwrap().to_string());
        assert_eq!(file_name_text(p), expected, "{p}");
    }
}
