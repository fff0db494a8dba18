use workspace_manager::config::{
    parse_u16, read_path_list, AuthConfig, Config, Environment, WorkspaceConfig,
    WorkspaceSharedData,
};

fn env(pairs: &[(&str, &str)]) -> Environment {
    Environment {
        vars: pairs
            .iter()
            .map(|(k, v)| (k.to_string(), v.to_string()))
            .collect(),
    }
}

#[test]
fn defaults_apply_to_an_empty_environment() {
    let config = Config::from_env(&env(&[]));
    assert_eq!(config.data_dir, "data");
    assert!(config.auth.is_none());
    let w = config.workspace;
    assert_eq!(w.image, "gitea-code-server:latest");
    assert_eq!((w.port_start, w.port_end), (30000, 30999));
    assert_eq!(w.shared_data, WorkspaceSharedData::Unshared);
    assert!(w.shared_files.is_empty());
    assert!(w.code_server_password.is_none());
}

#[test]
fn port_end_is_raised_to_port_start() {
    let w = WorkspaceConfig::from_env(&env(&[
        ("WORKSPACE_PORT_START", "40000"),
        ("WORKSPACE_PORT_END", "39000"),
    ]));
    assert_eq!((w.port_start, w.port_end), (40000, 40000));
    let w = WorkspaceConfig::from_env(&env(&[("WORKSPACE_PORT_START", "x")]));
    assert_eq!(w.port_start, 30000);
}

#[test]
fn parse_u16_follows_from_str() {
    assert_eq!(parse_u16("65535"), Some(65535));
    assert_eq!(parse_u16("65536"), None);
    assert_eq!(parse_u16("+7"), Some(7));
    assert_eq!(parse_u16("007"), Some(7));
    assert_eq!(parse_u16("+"), None);
    assert_eq!(parse_u16(""), None);
    assert_eq!(parse_u16("-1"), None);
    assert_eq!(parse_u16(" 1"), None);
    for s in ["0", "1", "99999", "12a", "+0", "٣"] {
        assert_eq!(parse_u16(s), s.parse::<u16>().ok());
    }
}

#[test]
fn shared_data_strategies() {
    for (value, expected) in [
        ("global", WorkspaceSharedData::Global),
        ("ALL", WorkspaceSharedData::Global),
        ("user", WorkspaceSharedData::User),
        ("Per-User", WorkspaceSharedData::User),
        ("same-user", WorkspaceSharedData::User),
        ("none", WorkspaceSharedData::Unshared),
        ("other", WorkspaceSharedData::Unshared),
    ] {
        let e = env(&[("WORKSPACE_SHARED_DATA", value)]);
        assert_eq!(WorkspaceSharedData::from_env(&e), expected);
    }
}

#[test]
fn path_lists_are_split_trimmed_and_filtered() {
    let e = env(&[("WORKSPACE_SHARED_FILES", " User/a.json , ,User/b,")]);
    assert_eq!(
        read_path_list(&e, "WORKSPACE_SHARED_FILES"),
        vec!["User/a.json".to_string(), "User/b".to_string()]
    );
    assert!(read_path_list(&e, "MISSING").is_empty());
}

#[test]
fn auth_config_needs_id_and_secret() {
    assert!(AuthConfig::from_env(&env(&[("GITEA_OAUTH_CLIENT_ID", "id")])).is_none());
    let a = AuthConfig::from_env(&env(&[
        ("GITEA_OAUTH_CLIENT_ID", "id"),
        ("GITEA_OAUTH_CLIENT_SECRET", "secret"),
        ("WORKSPACE_MANAGER_PUBLIC_URL", "  "),
    ]))
    .unwrap();
    assert_eq!(a.client_id, "id");
    assert_eq!(a.client_secret, "secret");
    assert!(a.public_url.is_none());
}

#[test]
fn blank_values_count_as_unset() {
    let w = WorkspaceConfig::from_env(&env(&[
        ("WORKSPACE_IMAGE", "   "),
        ("CODE_SERVER_AUTH", "none"),
        ("WORKSPACE_GITHUB_TOKEN", " ghp "),
    ]));
    assert_eq!(w.image, "gitea-code-server:latest");
    assert_eq!(w.code_server_auth.as_deref(), Some("none"));
    assert_eq!(w.github_token.as_deref(), Some(" ghp "));
}
