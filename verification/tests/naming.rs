use std::collections::HashMap;

use workspace_manager::naming::{
    is_managed_workspace, slug_component, WorkspaceIdentity, MANAGED_BY_LABEL, MANAGED_BY_VALUE,
    REPO_LABEL, USER_ID_LABEL, WORKSPACE_ID_LABEL,
};

#[test]
fn names_are_human_readable_and_stable() {
    let identity = WorkspaceIdentity {
        workspace_id: "ws_123ABC".to_string(),
        user_id: "Alice.Root".to_string(),
        repo: "root/mycode".to_string(),
    };

    let names = identity.names();

    assert_eq!(names.container_name, "gws-alice-root-root-mycode-ws-123abc");
    assert_eq!(
        names.volume_name,
        "gws-alice-root-root-mycode-ws-123abc-data"
    );
    assert_eq!(names.network_name, "gws-network");
}

#[test]
fn managed_check_requires_service_label_and_workspace_id() {
    let mut labels = HashMap::new();
    labels.insert(MANAGED_BY_LABEL.to_string(), MANAGED_BY_VALUE.to_string());
    labels.insert(WORKSPACE_ID_LABEL.to_string(), "ws_123".to_string());

    assert!(is_managed_workspace(&labels, "ws_123"));
    assert!(!is_managed_workspace(&labels, "ws_456"));
}

#[test]
fn managed_check_rejects_other_managers() {
    let mut labels = HashMap::new();
    labels.insert(MANAGED_BY_LABEL.to_string(), "someone-else".to_string());
    labels.insert(WORKSPACE_ID_LABEL.to_string(), "ws_123".to_string());
    assert!(!is_managed_workspace(&labels, "ws_123"));
    assert!(!is_managed_workspace(&HashMap::new(), "ws_123"));
}

#[test]
fn docker_labels_mark_the_container_as_managed() {
    let identity = WorkspaceIdentity {
        workspace_id: "ws_1".to_string(),
        user_id: "7".to_string(),
        repo: "root/app".to_string(),
    };
    let labels = identity.docker_labels();
    assert_eq!(
        labels,
        vec![
            (MANAGED_BY_LABEL.to_string(), MANAGED_BY_VALUE.to_string()),
            (WORKSPACE_ID_LABEL.to_string(), "ws_1".to_string()),
            (USER_ID_LABEL.to_string(), "7".to_string()),
            (REPO_LABEL.to_string(), "root/app".to_string()),
        ]
    );
    let map: HashMap<String, String> = labels.into_iter().collect();
    assert!(is_managed_workspace(&map, "ws_1"));
    assert!(!is_managed_workspace(&map, "ws_2"));
}

#[test]
fn slug_lowercases_and_collapses_separators() {
    assert_eq!(slug_component("Hello,  World!!", 64), "hello-world");
    assert_eq!(slug_component("--a__b--", 64), "a-b");
    assert_eq!(slug_component("Ünïcode ok", 64), "n-code-ok");
}

#[test]
fn slug_falls_back_to_unknown() {
    assert_eq!(slug_component("", 24), "unknown");
    assert_eq!(slug_component("!!!", 24), "unknown");
    assert_eq!(slug_component("", 3), "unk");
}

#[test]
fn slug_truncates_to_max_len() {
    assert_eq!(slug_component("abcdefgh", 3), "abc");
    assert_eq!(slug_component("ab-cd", 3), "ab-");
    assert_eq!(slug_component("abc", 0), "");
}

#[test]
fn slug_shape_law_holds_on_examples() {
    for input in ["Alice.Root", "  x  ", "a/b/c", "ÄÖÜ", "", "--"] {
        for max in [0usize, 1, 5, 48] {
            let s = slug_component(input, max);
            assert!(s.chars().count() <= max);
            if max > 0 {
                assert!(!s.is_empty());
                assert!(!s.starts_with('-'));
            }
            assert!(!s.contains("--"));
            assert!(s
                .chars()
                .all(|c| c.is_ascii_lowercase() || c.is_ascii_digit() || c == '-'));
        }
    }
}

#[test]
fn volume_name_extends_container_name() {
    let identity = WorkspaceIdentity {
        workspace_id: "ws_0123456789abcdef0123456789abcdef".to_string(),
        user_id: "A very long user name that goes on".to_string(),
        repo: "Some Owner/A Repository With A Very Long Name Indeed Yes".to_string(),
    };
    let names = identity.names();
    assert_eq!(names.volume_name, format!("{}-data", names.container_name));
    assert!(names.container_name.starts_with("gws-"));
    assert_eq!(names.workspace_id, identity.workspace_id);
}

#[test]
fn slugging_a_slug_changes_nothing() {
    for (value, max_len) in [
        ("Alice.Root", 24usize),
        ("root/my--code", 48),
        ("", 3),
        ("---", 10),
        ("ws_123ABC", 24),
        ("x", 0),
    ] {
        let once = slug_component(value, max_len);
        assert_eq!(slug_component(&once, max_len), once, "{value}");
    }
    // Cutting can leave a dash at the end, which a second pass trims.
    let cut = slug_component("ab-cd", 3);
    assert_eq!(cut, "ab-");
    assert_eq!(slug_component(&cut, 3), "ab");
}
